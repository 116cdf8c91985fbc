//! The state of the terminal interface: the output log with its line and
//! stream records, the scrollback position, the channel filter and the
//! input line, and what each key does to them. Drawing, the clock, mouse
//! selection and the settings panel are left to the host program.
use vstd::prelude::*;
use crate::envelope::{MuxEnvelope, DIRECTION_INPUT};
use crate::host_session::{HostEvent, ProtocolCompatibilityKind};
use crate::host_session::{channel_position, channel_supports_passthrough, display_channel_name, find_channel};
use crate::manifest::{ChannelDescriptor, DeviceManifest};
use crate::text::{push_str, str_chars, string_from_chars, decimal_string, is_control_char};
use crate::tui::OutputArea;
use crate::interactive::{key_payload, TerminalKey, TerminalKeyCode};

verus! {

/// At most this many lines are kept; older ones are dropped.
pub const MAX_LINES: usize = 1000;
/// Lines one wheel step scrolls.
pub const WHEEL_SCROLL_LINES: usize = 1;

/// A line of the output log: the channel it came from (none for the
/// host's own lines), its text, and whether its line break has come.
#[derive(Clone, Debug, PartialEq, Eq)]
pub struct OutputLine {
    pub channel: Option<u32>,
    pub text: String,
    pub complete: bool,
}

#[verifier::ext_equal]
pub struct LineView {
    pub channel: Option<u32>,
    pub text: Seq<char>,
    pub complete: bool,
}

impl View for OutputLine {
    type V = LineView;

    open spec fn view(&self) -> LineView {
        LineView { channel: self.channel, text: self.text@, complete: self.complete }
    }
}

pub open spec fn lines_view(lines: Seq<OutputLine>) -> Seq<LineView> {
    lines.map_values(|l: OutputLine| l@)
}

/// The interface state.
pub struct App {
    pub lines: Vec<OutputLine>,
    pub input: String,
    pub filter: Option<u32>,
    pub prefix_pending: bool,
    pub status: String,
    pub manifest: Option<DeviceManifest>,
    pub should_quit: bool,
    pub scroll_offset: usize,
    pub scroll_target_offset: Option<usize>,
    pub empty_enter_restore_count: u8,
    pub dragging_scrollbar: bool,
    pub stream_cr_pending_channel: Option<u32>,
    pub exit_escape_pending: bool,
    pub diagnostics_path: String,
}

// ---------------------------------------------------------------------
// Splitting text into lines

/// Reading text left to right: the finished lines, each with whether a
/// line break ended it, and the text after the last line break.
pub open spec fn split_state(s: Seq<char>) -> (Seq<(Seq<char>, bool)>, Seq<char>)
    decreases s.len(),
{
    if s.len() == 0 {
        (Seq::empty(), Seq::empty())
    } else {
        let (done, cur) = split_state(s.drop_last());
        let c = s.last();
        if c == '\n' || c == '\r' {
            (done.push((cur, true)), Seq::empty())
        } else {
            (done, cur.push(c))
        }
    }
}

/// The lines of a text: each `\n` or `\r` ends one, and text after the
/// last one is a line still waiting for its break.
pub open spec fn text_pieces(s: Seq<char>) -> Seq<(Seq<char>, bool)> {
    let (done, cur) = split_state(s);
    if cur.len() > 0 { done.push((cur, false)) } else { done }
}

/// The log after appending lines: only the newest `MAX_LINES` stay.
pub open spec fn trimmed(s: Seq<LineView>) -> Seq<LineView> {
    if s.len() > MAX_LINES { s.skip(s.len() - MAX_LINES) } else { s }
}

pub open spec fn sat_add(a: int, b: int) -> int {
    if a + b > usize::MAX { usize::MAX as int } else { a + b }
}

/// A scrolled-back view stays on the same lines when `n` lines it shows
/// arrive: its offset and its animation target grow by `n`.
pub open spec fn pinned(offset: usize, target: Option<usize>, n: int) -> (usize, Option<usize>) {
    if offset > 0 {
        (
            sat_add(offset as int, n) as usize,
            match target {
                Some(t) => Some(sat_add(t as int, n) as usize),
                None => None,
            },
        )
    } else {
        (offset, target)
    }
}

pub open spec fn matches_filter(filter: Option<u32>, channel: Option<u32>) -> bool {
    filter is None || channel == filter
}

/// How many of the lines show under the filter.
pub open spec fn shown_count(lines: Seq<LineView>, filter: Option<u32>) -> int
    decreases lines.len(),
{
    if lines.len() == 0 {
        0
    } else {
        shown_count(lines.drop_last(), filter) + if matches_filter(filter, lines.last().channel) { 1int } else { 0int }
    }
}

impl App {
    /// Everything but the log and the scroll position is as before.
    pub open spec fn same_controls(&self, other: &App) -> bool {
        &&& self.input == other.input
        &&& self.filter == other.filter
        &&& self.prefix_pending == other.prefix_pending
        &&& self.status == other.status
        &&& self.manifest == other.manifest
        &&& self.should_quit == other.should_quit
        &&& self.empty_enter_restore_count == other.empty_enter_restore_count
        &&& self.dragging_scrollbar == other.dragging_scrollbar
        &&& self.exit_escape_pending == other.exit_escape_pending
        &&& self.diagnostics_path == other.diagnostics_path
    }

    /// A fresh interface writing diagnostics to the given path: nothing
    /// shown yet, all channels, connecting.
    pub fn new(diagnostics_path: &str) -> (r: App)
        ensures
            r.lines@.len() == 0,
            r.input@.len() == 0,
            r.filter is None,
            !r.prefix_pending,
            r.status@ == "connecting"@,
            r.manifest is None,
            !r.should_quit,
            r.scroll_offset == 0,
            r.scroll_target_offset is None,
            r.empty_enter_restore_count == 0,
            !r.dragging_scrollbar,
            r.stream_cr_pending_channel is None,
            !r.exit_escape_pending,
            r.diagnostics_path@ == diagnostics_path@,
    {
        App {
            lines: Vec::new(),
            input: String::new(),
            filter: None,
            prefix_pending: false,
            status: "connecting".to_owned(),
            manifest: None,
            should_quit: false,
            scroll_offset: 0,
            scroll_target_offset: None,
            empty_enter_restore_count: 0,
            dragging_scrollbar: false,
            stream_cr_pending_channel: None,
            exit_escape_pending: false,
            diagnostics_path: diagnostics_path.to_owned(),
        }
    }

    /// How many lines show under the filter.
    pub fn filtered_line_count(&self) -> (r: usize)
        ensures
            r as int == shown_count(lines_view(self.lines@), self.filter),
    {
        let ghost lv = lines_view(self.lines@);
        let mut n: usize = 0;
        let mut i: usize = 0;
        while i < self.lines.len()
            invariant
                i <= self.lines@.len(),
                lv == lines_view(self.lines@),
                n as int == shown_count(lv.subrange(0, i as int), self.filter),
                n <= i,
            decreases self.lines@.len() - i,
        {
            proof {
                let sub = lv.subrange(0, i as int + 1);
                assert(sub.drop_last() =~= lv.subrange(0, i as int));
                assert(sub.last() == self.lines@[i as int]@);
            }
            if self.line_matches_filter(&self.lines[i]) {
                n = n + 1;
            }
            i = i + 1;
        }
        assert(lv.subrange(0, i as int) =~= lv);
        n
    }

    /// Whether the line shows under the channel filter.
    pub fn line_matches_filter(&self, line: &OutputLine) -> (r: bool)
        ensures
            r == matches_filter(self.filter, line.channel),
    {
        match self.filter {
            None => true,
            Some(f) => match line.channel {
                Some(c) => c == f,
                None => false,
            },
        }
    }

    /// A new line that the scrolled-back view shows keeps the view on the
    /// lines it showed.
    pub fn pin_scrolled_view_for_new_line(&mut self, output_line: &OutputLine)
        ensures
            (final(self).scroll_offset, final(self).scroll_target_offset) == pinned(
                old(self).scroll_offset,
                old(self).scroll_target_offset,
                if matches_filter(old(self).filter, output_line.channel) { 1int } else { 0int },
            ),
            final(self).lines == old(self).lines,
            final(self).stream_cr_pending_channel == old(self).stream_cr_pending_channel,
            final(self).same_controls(&*old(self)),
    {
        if self.scroll_offset > 0 && self.line_matches_filter(output_line) {
            self.scroll_offset = self.scroll_offset.saturating_add(1);
            self.scroll_target_offset = match self.scroll_target_offset {
                Some(t) => Some(t.saturating_add(1)),
                None => None,
            };
        }
    }

    /// Drops the oldest lines beyond `MAX_LINES`.
    fn trim_lines(&mut self)
        ensures
            lines_view(final(self).lines@) == trimmed(lines_view(old(self).lines@)),
            final(self).scroll_offset == old(self).scroll_offset,
            final(self).scroll_target_offset == old(self).scroll_target_offset,
            final(self).stream_cr_pending_channel == old(self).stream_cr_pending_channel,
            final(self).same_controls(&*old(self)),
    {
        let ghost start = lines_view(self.lines@);
        let ghost mut dropped: int = 0;
        while self.lines.len() > MAX_LINES
            invariant
                0 <= dropped <= start.len(),
                lines_view(self.lines@) == start.skip(dropped),
                start.len() > MAX_LINES ==> dropped <= start.len() - MAX_LINES,
                start.len() <= MAX_LINES ==> dropped == 0,
                self.scroll_offset == old(self).scroll_offset,
                self.scroll_target_offset == old(self).scroll_target_offset,
                self.stream_cr_pending_channel == old(self).stream_cr_pending_channel,
                self.same_controls(&*old(self)),
            decreases self.lines@.len(),
        {
            let ghost before = lines_view(self.lines@);
            self.lines.remove(0);
            proof {
                assert(lines_view(self.lines@) =~= before.drop_first());
                assert(start.skip(dropped + 1) =~= start.skip(dropped).drop_first());
            }
            proof {
                dropped = dropped + 1;
            }
        }
    }

    /// Appends a line, keeping a scrolled-back view on its lines.
    fn append_line(&mut self, line: OutputLine)
        ensures
            lines_view(final(self).lines@) == lines_view(old(self).lines@).push(line@),
            (final(self).scroll_offset, final(self).scroll_target_offset) == pinned(
                old(self).scroll_offset,
                old(self).scroll_target_offset,
                if matches_filter(old(self).filter, line.channel) { 1int } else { 0int },
            ),
            final(self).stream_cr_pending_channel == old(self).stream_cr_pending_channel,
            final(self).same_controls(&*old(self)),
    {
        self.pin_scrolled_view_for_new_line(&line);
        let ghost before = self.lines@;
        self.lines.push(line);
        assert(lines_view(self.lines@) =~= lines_view(before).push(line@));
    }

    /// Appends the lines of a text on a channel: each `\n` or `\r` ends a
    /// complete line, text after the last one is a line still open.
    pub fn push_line(&mut self, channel: Option<u32>, text: &str)
        ensures
            ({
                let pieces = text_pieces(text@);
                let added = pieces.map_values(|p: (Seq<char>, bool)| LineView { channel, text: p.0, complete: p.1 });
                &&& lines_view(final(self).lines@) == trimmed(lines_view(old(self).lines@) + added)
                &&& (final(self).scroll_offset, final(self).scroll_target_offset) == pinned(
                    old(self).scroll_offset,
                    old(self).scroll_target_offset,
                    if matches_filter(old(self).filter, channel) { pieces.len() as int } else { 0int },
                )
            }),
            final(self).stream_cr_pending_channel == old(self).stream_cr_pending_channel,
            final(self).same_controls(&*old(self)),
    {
        let chars = str_chars(text);
        let ghost base = lines_view(self.lines@);
        let ghost m = matches_filter(self.filter, channel);
        let mut cur: Vec<char> = Vec::new();
        let mut i: usize = 0;
        let ghost mut done: Seq<(Seq<char>, bool)> = Seq::empty();
        while i < chars.len()
            invariant
                i <= chars@.len(),
                chars@ == text@,
                m == matches_filter(self.filter, channel),
                split_state(chars@.subrange(0, i as int)) == (done, cur@),
                lines_view(self.lines@) == base + done.map_values(|p: (Seq<char>, bool)| LineView { channel, text: p.0, complete: p.1 }),
                (self.scroll_offset, self.scroll_target_offset) == pinned(
                    old(self).scroll_offset,
                    old(self).scroll_target_offset,
                    if m { done.len() as int } else { 0int },
                ),
                self.stream_cr_pending_channel == old(self).stream_cr_pending_channel,
                self.same_controls(&*old(self)),
            decreases chars@.len() - i,
        {
            let c = chars[i];
            proof {
                let sub = chars@.subrange(0, i as int + 1);
                assert(sub.drop_last() =~= chars@.subrange(0, i as int));
                assert(sub.last() == c);
            }
            if c == '\n' || c == '\r' {
                let piece = string_from_chars(cur.as_slice());
                let ghost before_done = done;
                self.append_line(OutputLine { channel, text: piece, complete: true });
                proof {
                    done = done.push((cur@, true));
                    assert(done.map_values(|p: (Seq<char>, bool)| LineView { channel, text: p.0, complete: p.1 })
                        =~= before_done.map_values(|p: (Seq<char>, bool)| LineView { channel, text: p.0, complete: p.1 })
                            .push(LineView { channel, text: cur@, complete: true }));
                }
                cur = Vec::new();
                assert(cur@ =~= Seq::<char>::empty());
            } else {
                cur.push(c);
            }
            i = i + 1;
        }
        assert(chars@.subrange(0, i as int) =~= text@);
        if cur.len() > 0 {
            let piece = string_from_chars(cur.as_slice());
            let ghost before_done = done;
            self.append_line(OutputLine { channel, text: piece, complete: false });
            proof {
                done = done.push((cur@, false));
                assert(done.map_values(|p: (Seq<char>, bool)| LineView { channel, text: p.0, complete: p.1 })
                    =~= before_done.map_values(|p: (Seq<char>, bool)| LineView { channel, text: p.0, complete: p.1 })
                        .push(LineView { channel, text: cur@, complete: false }));
            }
        }
        assert(done == text_pieces(text@));
        self.trim_lines();
    }
}

// ---------------------------------------------------------------------
// Stream records

/// The newest line of the channel still waiting for its line break.
pub open spec fn last_incomplete(lines: Seq<LineView>, channel: Option<u32>) -> Option<int>
    decreases lines.len(),
{
    if lines.len() == 0 {
        None
    } else if lines.last().channel == channel && !lines.last().complete {
        Some(lines.len() - 1)
    } else {
        last_incomplete(lines.drop_last(), channel)
    }
}

pub proof fn lemma_last_incomplete(lines: Seq<LineView>, channel: Option<u32>)
    ensures
        last_incomplete(lines, channel) matches Some(i) ==> 0 <= i < lines.len() && lines[i].channel == channel
            && !lines[i].complete,
    decreases lines.len(),
{
    if lines.len() > 0 {
        lemma_last_incomplete(lines.drop_last(), channel);
    }
}

/// The log, the channel whose `\r` may be followed by a `\n` to skip, and
/// the scroll offset and target.
#[verifier::ext_equal]
pub struct StreamState {
    pub lines: Seq<LineView>,
    pub cr_pending: Option<u32>,
    pub offset: usize,
    pub target: Option<usize>,
}

/// Adds text to the channel's open line, else starts a line with it.
pub open spec fn append_segment(st: StreamState, filter: Option<u32>, channel: Option<u32>, seg: Seq<char>, complete: bool) -> StreamState {
    match last_incomplete(st.lines, channel) {
        Some(i) => StreamState {
            lines: st.lines.update(i, LineView { channel: st.lines[i].channel, text: st.lines[i].text + seg, complete }),
            ..st
        },
        None => {
            let (o, t) = pinned(st.offset, st.target, if matches_filter(filter, channel) { 1int } else { 0int });
            StreamState { lines: st.lines.push(LineView { channel, text: seg, complete }), offset: o, target: t, ..st }
        },
    }
}

/// One character of a stream record: a line break ends the channel's open
/// line (a `\n` right after a `\r` of the same channel is skipped),
/// backspace and delete take the last character back, other control
/// characters but tab are dropped, and the rest is added to the line.
pub open spec fn stream_char(st: StreamState, filter: Option<u32>, channel: Option<u32>, ch: char) -> StreamState {
    if ch == '\n' && channel is Some && st.cr_pending == channel {
        StreamState { cr_pending: None, ..st }
    } else if ch == '\r' || ch == '\n' {
        let st2 = StreamState { cr_pending: if ch == '\r' { channel } else { None }, ..st };
        match last_incomplete(st2.lines, channel) {
            Some(i) => StreamState { lines: st2.lines.update(i, LineView { complete: true, ..st2.lines[i] }), ..st2 },
            None => append_segment(st2, filter, channel, Seq::empty(), true),
        }
    } else {
        let st2 = StreamState { cr_pending: None, ..st };
        if ch == '\u{8}' || ch == '\u{7f}' {
            match last_incomplete(st2.lines, channel) {
                Some(i) => StreamState {
                    lines: st2.lines.update(i, LineView {
                        text: if st2.lines[i].text.len() > 0 { st2.lines[i].text.drop_last() } else { st2.lines[i].text },
                        ..st2.lines[i]
                    }),
                    ..st2
                },
                None => st2,
            }
        } else if crate::text::is_control(ch) && ch != '\t' {
            st2
        } else {
            append_segment(st2, filter, channel, seq![ch], false)
        }
    }
}

/// Streamed output keeps what it shows: a printable character, or a tab,
/// is added to the channel's open line exactly as it is, and every other
/// line stays; with no open line it starts a new, still open line of its
/// own at the end. A control character other than tab, line breaks,
/// backspace and delete changes no line.
pub proof fn lemma_stream_char_appends(st: StreamState, filter: Option<u32>, channel: Option<u32>, ch: char)
    requires
        ch != '\r',
        ch != '\n',
        ch != '\u{8}',
        ch != '\u{7f}',
    ensures
        (ch == '\t' || !crate::text::is_control(ch)) ==> ({
            let after = stream_char(st, filter, channel, ch).lines;
            match last_incomplete(st.lines, channel) {
                Some(i) => {
                    &&& after.len() == st.lines.len()
                    &&& after[i].text == st.lines[i].text.push(ch)
                    &&& after[i].channel == channel && !after[i].complete
                    &&& forall|j: int| 0 <= j < st.lines.len() && j != i ==> after[j] == st.lines[j]
                },
                None => {
                    &&& after.len() == st.lines.len() + 1
                    &&& after.last() == (LineView { channel, text: seq![ch], complete: false })
                    &&& forall|j: int| 0 <= j < st.lines.len() ==> after[j] == st.lines[j]
                },
            }
        }),
        (ch != '\t' && crate::text::is_control(ch)) ==> stream_char(st, filter, channel, ch).lines == st.lines,
{
    lemma_last_incomplete(st.lines, channel);
    if let Some(i) = last_incomplete(st.lines, channel) {
        assert(st.lines[i].text + seq![ch] =~= st.lines[i].text.push(ch));
    }
}

/// The characters of a stream record, one after the other.
pub open spec fn stream_text(st: StreamState, filter: Option<u32>, channel: Option<u32>, s: Seq<char>) -> StreamState
    decreases s.len(),
{
    if s.len() == 0 {
        st
    } else {
        stream_char(stream_text(st, filter, channel, s.drop_last()), filter, channel, s.last())
    }
}

impl App {
    pub open spec fn stream_state(&self) -> StreamState {
        StreamState {
            lines: lines_view(self.lines@),
            cr_pending: self.stream_cr_pending_channel,
            offset: self.scroll_offset,
            target: self.scroll_target_offset,
        }
    }

    /// The index of the newest line of the channel still waiting for its
    /// line break.
    pub fn incomplete_stream_line(&self, channel: Option<u32>) -> (r: Option<usize>)
        ensures
            match r {
                Some(i) => last_incomplete(lines_view(self.lines@), channel) == Some(i as int) && i < self.lines@.len(),
                None => last_incomplete(lines_view(self.lines@), channel) is None,
            },
    {
        proof {
            lemma_last_incomplete(lines_view(self.lines@), channel);
        }
        let ghost lv = lines_view(self.lines@);
        let mut k: usize = self.lines.len();
        assert(lv.subrange(0, k as int) =~= lv);
        while k > 0
            invariant
                k <= self.lines@.len(),
                lv == lines_view(self.lines@),
                last_incomplete(lv, channel) == last_incomplete(lv.subrange(0, k as int), channel),
            decreases k,
        {
            let ghost sub = lv.subrange(0, k as int);
            assert(sub.drop_last() =~= lv.subrange(0, k as int - 1));
            assert(sub.last() == self.lines@[k as int - 1]@);
            let same = match (&self.lines[k - 1].channel, &channel) {
                (Some(a), Some(b)) => *a == *b,
                (None, None) => true,
                _ => false,
            };
            if same && !self.lines[k - 1].complete {
                return Some(k - 1);
            }
            k = k - 1;
        }
        None
    }

    /// Replaces line `i` by one with the given text and completeness.
    fn replace_line(&mut self, i: usize, text: String, complete: bool)
        requires
            i < old(self).lines@.len(),
        ensures
            lines_view(final(self).lines@) == lines_view(old(self).lines@).update(
                i as int,
                LineView { channel: old(self).lines@[i as int].channel, text: text@, complete },
            ),
            final(self).scroll_offset == old(self).scroll_offset,
            final(self).scroll_target_offset == old(self).scroll_target_offset,
            final(self).stream_cr_pending_channel == old(self).stream_cr_pending_channel,
            final(self).same_controls(&*old(self)),
    {
        let old_line = self.lines.remove(i);
        self.lines.insert(i, OutputLine { channel: old_line.channel, text, complete });
        assert(lines_view(self.lines@) =~= lines_view(old(self).lines@).update(
            i as int,
            LineView { channel: old(self).lines@[i as int].channel, text: text@, complete },
        ));
    }

    /// Adds text to the channel's open line, else starts a line with it.
    pub fn append_stream_segment(&mut self, channel: Option<u32>, segment: &[char], complete: bool)
        ensures
            final(self).stream_state() == append_segment(old(self).stream_state(), old(self).filter, channel, segment@, complete),
            final(self).same_controls(&*old(self)),
    {
        let ghost st = self.stream_state();
        match self.incomplete_stream_line(channel) {
            Some(i) => {
                let mut chars = str_chars(self.lines[i].text.as_str());
                let mut k: usize = 0;
                let ghost start = chars@;
                while k < segment.len()
                    invariant
                        k <= segment@.len(),
                        chars@ == start + segment@.subrange(0, k as int),
                    decreases segment@.len() - k,
                {
                    chars.push(segment[k]);
                    assert(chars@ =~= start + segment@.subrange(0, k as int + 1));
                    k = k + 1;
                }
                assert(segment@.subrange(0, k as int) =~= segment@);
                let text = string_from_chars(chars.as_slice());
                assert(text@ == st.lines[i as int].text + segment@);
                self.replace_line(i, text, complete);
                assert(self.stream_state().lines =~= append_segment(st, old(self).filter, channel, segment@, complete).lines);
            },
            None => {
                let text = string_from_chars(segment);
                self.append_line(OutputLine { channel, text, complete });
                assert(self.stream_state().lines =~= append_segment(st, old(self).filter, channel, segment@, complete).lines);
            },
        }
    }

    /// Ends the channel's open line, or adds an empty finished line.
    pub fn complete_stream_line(&mut self, channel: Option<u32>)
        ensures
            final(self).stream_state() == (match last_incomplete(old(self).stream_state().lines, channel) {
                Some(i) => StreamState {
                    lines: old(self).stream_state().lines.update(i, LineView { complete: true, ..old(self).stream_state().lines[i] }),
                    ..old(self).stream_state()
                },
                None => append_segment(old(self).stream_state(), old(self).filter, channel, Seq::empty(), true),
            }),
            final(self).same_controls(&*old(self)),
    {
        match self.incomplete_stream_line(channel) {
            Some(i) => {
                let chars = str_chars(self.lines[i].text.as_str());
                let text = string_from_chars(chars.as_slice());
                self.replace_line(i, text, true);
            },
            None => {
                let empty: Vec<char> = Vec::new();
                self.append_stream_segment(channel, empty.as_slice(), true);
                assert(empty@ =~= Seq::<char>::empty());
            },
        }
    }

    /// Takes the last character back from the channel's open line.
    pub fn backspace_stream_line(&mut self, channel: Option<u32>)
        ensures
            final(self).stream_state() == (match last_incomplete(old(self).stream_state().lines, channel) {
                Some(i) => StreamState {
                    lines: old(self).stream_state().lines.update(i, LineView {
                        text: if old(self).stream_state().lines[i].text.len() > 0 {
                            old(self).stream_state().lines[i].text.drop_last()
                        } else {
                            old(self).stream_state().lines[i].text
                        },
                        ..old(self).stream_state().lines[i]
                    }),
                    ..old(self).stream_state()
                },
                None => old(self).stream_state(),
            }),
            final(self).same_controls(&*old(self)),
    {
        match self.incomplete_stream_line(channel) {
            Some(i) => {
                let mut chars = str_chars(self.lines[i].text.as_str());
                if chars.len() > 0 {
                    chars.pop();
                }
                let text = string_from_chars(chars.as_slice());
                let complete = self.lines[i].complete;
                self.replace_line(i, text, complete);
                assert(lines_view(self.lines@) =~= old(self).stream_state().lines.update(i as int, LineView {
                    text: if old(self).stream_state().lines[i as int].text.len() > 0 {
                        old(self).stream_state().lines[i as int].text.drop_last()
                    } else {
                        old(self).stream_state().lines[i as int].text
                    },
                    ..old(self).stream_state().lines[i as int]
                }));
            },
            None => {},
        }
    }

    /// One character of a stream record.
    pub fn push_stream_char(&mut self, channel: Option<u32>, ch: char)
        ensures
            final(self).stream_state() == stream_char(old(self).stream_state(), old(self).filter, channel, ch),
            final(self).same_controls(&*old(self)),
    {
        let cr_same = match (&self.stream_cr_pending_channel, &channel) {
            (Some(a), Some(b)) => *a == *b,
            _ => false,
        };
        if ch == '\n' && cr_same {
            self.stream_cr_pending_channel = None;
            return;
        }
        if ch == '\r' || ch == '\n' {
            self.stream_cr_pending_channel = if ch == '\r' { channel } else { None };
            self.complete_stream_line(channel);
            return;
        }
        self.stream_cr_pending_channel = None;
        if ch == '\u{8}' || ch == '\u{7f}' {
            self.backspace_stream_line(channel);
            return;
        }
        if is_control_char(ch) && ch != '\t' {
            return;
        }
        let seg: Vec<char> = vec![ch];
        assert(seg@ =~= seq![ch]);
        self.append_stream_segment(channel, seg.as_slice(), false);
    }

    /// A stream record: its characters in turn, then the oldest lines
    /// beyond `MAX_LINES` dropped; an empty record changes nothing.
    pub fn push_stream(&mut self, channel: Option<u32>, text: &str)
        ensures
            text@.len() == 0 ==> final(self).stream_state() == old(self).stream_state(),
            text@.len() > 0 ==> final(self).stream_state() == ({
                let st = stream_text(old(self).stream_state(), old(self).filter, channel, text@);
                StreamState { lines: trimmed(st.lines), ..st }
            }),
            final(self).same_controls(&*old(self)),
    {
        let chars = str_chars(text);
        if chars.len() == 0 {
            return;
        }
        let mut i: usize = 0;
        while i < chars.len()
            invariant
                i <= chars@.len(),
                chars@ == text@,
                self.stream_state() == stream_text(old(self).stream_state(), old(self).filter, channel, chars@.subrange(0, i as int)),
                self.same_controls(&*old(self)),
            decreases chars@.len() - i,
        {
            proof {
                let sub = chars@.subrange(0, i as int + 1);
                assert(sub.drop_last() =~= chars@.subrange(0, i as int));
            }
            self.push_stream_char(channel, chars[i]);
            i = i + 1;
        }
        assert(chars@.subrange(0, i as int) =~= text@);
        self.trim_lines();
    }
}

// ---------------------------------------------------------------------
// Input and labels

/// What the input line does: nothing, send lines, or pass keys through.
#[derive(Clone, Copy, Debug, PartialEq, Eq, Structural)]
pub enum InputState {
    ReadOnly,
    Line(u8),
    Passthrough(u8),
}

impl InputState {
    pub fn channel(self) -> (r: Option<u8>)
        ensures
            r == match self {
                InputState::ReadOnly => None,
                InputState::Line(c) => Some(c),
                InputState::Passthrough(c) => Some(c),
            },
    {
        match self {
            InputState::ReadOnly => None,
            InputState::Line(c) => Some(c),
            InputState::Passthrough(c) => Some(c),
        }
    }

    pub fn is_passthrough(self) -> (r: bool)
        ensures
            r == (self is Passthrough),
    {
        match self {
            InputState::Passthrough(_) => true,
            _ => false,
        }
    }
}

/// Whether the manifest's channel with the id takes input.
pub open spec fn supports_input(manifest: DeviceManifest, channel_id: u32) -> bool {
    match channel_position(manifest.channels@, channel_id) {
        Some(i) => manifest.channels@[i].directions@.contains(DIRECTION_INPUT),
        None => false,
    }
}

pub open spec fn supports_passthrough(manifest: DeviceManifest, channel_id: u32) -> bool {
    match channel_position(manifest.channels@, channel_id) {
        Some(i) => manifest.channels@[i].default_interaction_mode == crate::manifest::CHANNEL_INTERACTION_PASSTHROUGH
            || manifest.channels@[i].interaction_modes@.contains(crate::manifest::CHANNEL_INTERACTION_PASSTHROUGH),
        None => false,
    }
}

pub fn channel_supports_input(manifest: &DeviceManifest, channel_id: u32) -> (r: bool)
    ensures
        r == supports_input(*manifest, channel_id),
{
    match find_channel(manifest, channel_id) {
        Some(i) => crate::virtual_serial::vec_contains(&manifest.channels[i].directions, DIRECTION_INPUT),
        None => false,
    }
}

/// The channel the filter shows, when it fits a host input frame.
pub open spec fn input_channel(filter: Option<u32>) -> Option<u8> {
    match filter {
        Some(c) => if c <= 255 { Some(c as u8) } else { None },
        None => None,
    }
}

/// Input goes to the filtered channel once the manifest says it takes
/// input, as passthrough keys where it takes those, else as lines.
pub open spec fn input_state(filter: Option<u32>, manifest: Option<DeviceManifest>) -> InputState {
    match (input_channel(filter), manifest) {
        (Some(c), Some(m)) => if !supports_input(m, c as u32) {
            InputState::ReadOnly
        } else if supports_passthrough(m, c as u32) {
            InputState::Passthrough(c)
        } else {
            InputState::Line(c)
        },
        _ => InputState::ReadOnly,
    }
}

/// The prefix of a channel's lines: `ch<id>` and the manifest's label of
/// the channel in brackets, when it has one.
pub open spec fn prefix_chars(manifest: Option<DeviceManifest>, channel_id: u32) -> Seq<char> {
    let label: Seq<char> = match manifest {
        Some(m) => match channel_position(m.channels@, channel_id) {
            Some(i) => crate::host_session::channel_label(m.channels@[i].name@),
            None => Seq::empty(),
        },
        None => Seq::empty(),
    };
    if label.len() > 0 {
        "ch"@ + crate::text::decimal_chars(channel_id as nat) + "("@ + label + ")"@
    } else {
        "ch"@ + crate::text::decimal_chars(channel_id as nat)
    }
}

/// The input line's label in the status pane.
pub open spec fn input_text(state: InputState) -> Seq<char> {
    match state {
        InputState::ReadOnly => "read-only"@,
        InputState::Line(c) => "ch"@ + crate::text::decimal_chars(c as nat) + " line"@,
        InputState::Passthrough(c) => "ch"@ + crate::text::decimal_chars(c as nat) + " passthrough"@,
    }
}

/// The filter's label in the status pane.
pub open spec fn filter_text(filter: Option<u32>) -> Seq<char> {
    match filter {
        Some(c) => "ch"@ + crate::text::decimal_chars(c as nat),
        None => "all"@,
    }
}

/// The device line of the status pane.
pub open spec fn manifest_text(manifest: Option<DeviceManifest>) -> Seq<char> {
    match manifest {
        Some(m) => (if m.device_name@.len() == 0 { "-"@ } else { m.device_name@ }) + " "@
            + (if m.firmware_version@.len() == 0 { "-"@ } else { m.firmware_version@ })
            + " api="@ + crate::text::decimal_chars(m.protocol_version as nat)
            + " channels="@ + crate::text::decimal_chars(m.channels@.len())
            + " max_payload="@ + crate::text::decimal_chars(m.max_payload_len as nat),
        None => "manifest pending"@,
    }
}

/// The status line: the status, or how far back the view stands.
pub open spec fn status_text(a: App) -> Seq<char> {
    if a.scroll_offset == 0 {
        a.status@
    } else {
        "scrollback: "@ + crate::text::decimal_chars(a.scroll_offset as nat) + " lines from bottom"@
    }
}

impl App {
    pub fn active_input_channel(&self) -> (r: Option<u8>)
        ensures
            r == input_channel(self.filter),
    {
        match self.filter {
            Some(c) => if c <= 255 { Some(c as u8) } else { None },
            None => None,
        }
    }

    pub fn active_input_state(&self) -> (r: InputState)
        ensures
            r == input_state(self.filter, self.manifest),
    {
        let channel = match self.active_input_channel() {
            Some(c) => c,
            None => {
                return InputState::ReadOnly;
            },
        };
        match &self.manifest {
            None => InputState::ReadOnly,
            Some(m) => {
                if !channel_supports_input(m, channel as u32) {
                    InputState::ReadOnly
                } else if channel_supports_passthrough(m, channel as u32) {
                    InputState::Passthrough(channel)
                } else {
                    InputState::Line(channel)
                }
            },
        }
    }

    pub fn active_input_is_passthrough(&self) -> (r: bool)
        ensures
            r == (input_state(self.filter, self.manifest) is Passthrough),
    {
        self.active_input_state().is_passthrough()
    }

    /// Whether the manifest marks the channel as a passthrough channel.
    pub fn channel_is_passthrough(&self, channel_id: u32) -> (r: bool)
        ensures
            r == (self.manifest matches Some(m) && supports_passthrough(m, channel_id)),
    {
        match &self.manifest {
            Some(m) => channel_supports_passthrough(m, channel_id),
            None => false,
        }
    }

    /// Clears the input line while it cannot be sent anywhere.
    pub fn clear_input_if_read_only(&mut self)
        ensures
            input_state(old(self).filter, old(self).manifest) is ReadOnly ==> final(self).input@.len() == 0,
            !(input_state(old(self).filter, old(self).manifest) is ReadOnly) ==> final(self).input == old(self).input,
            final(self).lines == old(self).lines,
            final(self).filter == old(self).filter,
            final(self).status == old(self).status,
            final(self).manifest == old(self).manifest,
            final(self).prefix_pending == old(self).prefix_pending,
            final(self).should_quit == old(self).should_quit,
            final(self).scroll_offset == old(self).scroll_offset,
            final(self).scroll_target_offset == old(self).scroll_target_offset,
            final(self).empty_enter_restore_count == old(self).empty_enter_restore_count,
            final(self).dragging_scrollbar == old(self).dragging_scrollbar,
            final(self).stream_cr_pending_channel == old(self).stream_cr_pending_channel,
            final(self).exit_escape_pending == old(self).exit_escape_pending,
            final(self).diagnostics_path == old(self).diagnostics_path,
    {
        if self.active_input_state() == InputState::ReadOnly {
            self.input = String::new();
        }
    }

    pub fn input_label(&self) -> (r: String)
        ensures
            r@ == input_text(input_state(self.filter, self.manifest)),
    {
        match self.active_input_state() {
            InputState::ReadOnly => "read-only".to_owned(),
            InputState::Line(c) => {
                let mut out = "ch".to_owned();
                let d = decimal_string(c as u64);
                push_str(&mut out, d.as_str());
                push_str(&mut out, " line");
                out
            },
            InputState::Passthrough(c) => {
                let mut out = "ch".to_owned();
                let d = decimal_string(c as u64);
                push_str(&mut out, d.as_str());
                push_str(&mut out, " passthrough");
                out
            },
        }
    }

    pub fn input_title(&self) -> (r: &'static str)
        ensures
            r@ == match input_state(self.filter, self.manifest) {
                InputState::ReadOnly => "input: read-only, Ctrl-C/Ctrl-]/Esc x quits"@,
                InputState::Line(_) => "input: Enter sends, Esc clears, Ctrl-C/Ctrl-]/Esc x quits"@,
                InputState::Passthrough(_) => "input: passthrough, Ctrl-C/Ctrl-]/Esc x quits"@,
            },
    {
        match self.active_input_state() {
            InputState::ReadOnly => "input: read-only, Ctrl-C/Ctrl-]/Esc x quits",
            InputState::Line(_) => "input: Enter sends, Esc clears, Ctrl-C/Ctrl-]/Esc x quits",
            InputState::Passthrough(_) => "input: passthrough, Ctrl-C/Ctrl-]/Esc x quits",
        }
    }

    pub fn filter_label(&self) -> (r: String)
        ensures
            r@ == filter_text(self.filter),
    {
        match self.filter {
            Some(c) => {
                let mut out = "ch".to_owned();
                let d = decimal_string(c as u64);
                push_str(&mut out, d.as_str());
                out
            },
            None => "all".to_owned(),
        }
    }

    /// The manifest line of the status pane.
    pub fn manifest_label(&self) -> (r: String)
        ensures
            r@ == manifest_text(self.manifest),
    {
        match &self.manifest {
            Some(m) => {
                proof {
                    reveal_strlit("-");
                }
                let mut out = crate::tui::empty_as_dash(m.device_name.as_str());
                push_str(&mut out, " ");
                let fw = crate::tui::empty_as_dash(m.firmware_version.as_str());
                push_str(&mut out, fw.as_str());
                push_str(&mut out, " api=");
                let api = decimal_string(m.protocol_version as u64);
                push_str(&mut out, api.as_str());
                push_str(&mut out, " channels=");
                let n = decimal_string(m.channels.len() as u64);
                push_str(&mut out, n.as_str());
                push_str(&mut out, " max_payload=");
                let mp = decimal_string(m.max_payload_len as u64);
                push_str(&mut out, mp.as_str());
                out
            },
            None => "manifest pending".to_owned(),
        }
    }

    /// The prefix of a channel's lines.
    pub fn channel_prefix(&self, channel_id: u32) -> (r: String)
        ensures
            r@ == prefix_chars(self.manifest, channel_id),
    {
        let name = match &self.manifest {
            Some(m) => match find_channel(m, channel_id) {
                Some(i) => display_channel_name(m.channels[i].name.as_str()),
                None => None,
            },
            None => None,
        };
        let mut out = "ch".to_owned();
        let d = decimal_string(channel_id as u64);
        push_str(&mut out, d.as_str());
        match name {
            Some(n) => {
                push_str(&mut out, "(");
                push_str(&mut out, n.as_str());
                push_str(&mut out, ")");
            },
            None => {},
        }
        out
    }
}

// ---------------------------------------------------------------------
// Records and scrolling

/// The state after `push_line`.
pub open spec fn line_pushed(st: StreamState, filter: Option<u32>, channel: Option<u32>, text: Seq<char>) -> StreamState {
    let pieces = text_pieces(text);
    let added = pieces.map_values(|p: (Seq<char>, bool)| LineView { channel, text: p.0, complete: p.1 });
    let (o, t) = pinned(st.offset, st.target, if matches_filter(filter, channel) { pieces.len() as int } else { 0int });
    StreamState { lines: trimmed(st.lines + added), offset: o, target: t, ..st }
}

/// The state after `push_stream`.
pub open spec fn stream_pushed(st: StreamState, filter: Option<u32>, channel: Option<u32>, text: Seq<char>) -> StreamState {
    if text.len() == 0 {
        st
    } else {
        let s2 = stream_text(st, filter, channel, text);
        StreamState { lines: trimmed(s2.lines), ..s2 }
    }
}

pub open spec fn sat_sub(a: int, b: int) -> int {
    if a > b { a - b } else { 0 }
}

/// Rows a line of `t` characters takes in a pane `w` columns wide, after
/// a prefix of `p` columns when it has one: the prefix and what of the
/// text fits beside it, then as many full-width rows as the rest needs;
/// an empty text still takes a row.
pub open spec fn line_rows(prefix: Option<int>, t: int, w: int) -> int {
    match prefix {
        None => crate::tui::visual_height(t, w),
        Some(p) => {
            let first = sat_sub(w, p);
            if first == 0 {
                1 + crate::tui::visual_height(t, w)
            } else {
                1 + if t > first { crate::tui::visual_height(t - first, w) } else { 0 }
            }
        },
    }
}

/// The width of a line's prefix: the channel prefix and `> `.
pub open spec fn prefix_width(manifest: Option<DeviceManifest>, channel: Option<u32>) -> Option<int> {
    match channel {
        Some(c) => Some(if prefix_chars(manifest, c).len() + 2 >= usize::MAX { usize::MAX as int } else { prefix_chars(manifest, c).len() + 2int }),
        None => None,
    }
}

/// Rows the lines that show under the filter take.
pub open spec fn rows_of(lines: Seq<LineView>, manifest: Option<DeviceManifest>, filter: Option<u32>, w: int) -> int
    decreases lines.len(),
{
    if lines.len() == 0 {
        0
    } else {
        rows_of(lines.drop_last(), manifest, filter, w) + if matches_filter(filter, lines.last().channel) {
            line_rows(prefix_width(manifest, lines.last().channel), lines.last().text.len() as int, w)
        } else {
            0
        }
    }
}

/// The newest line of the channel.
pub open spec fn last_of_channel(lines: Seq<LineView>, channel: Option<u32>) -> Option<LineView>
    decreases lines.len(),
{
    if lines.len() == 0 {
        None
    } else if lines.last().channel == channel {
        Some(lines.last())
    } else {
        last_of_channel(lines.drop_last(), channel)
    }
}

/// A passthrough channel followed live gets an empty prompt line after a
/// finished line, so that typing shows where the device will echo.
pub open spec fn shows_prompt(lines: Seq<LineView>, filter: Option<u32>, manifest: Option<DeviceManifest>, offset: usize) -> bool {
    match input_state(filter, manifest) {
        InputState::Passthrough(c) => offset == 0 && match last_of_channel(lines, Some(c as u32)) {
            Some(l) => l.complete,
            None => true,
        },
        _ => false,
    }
}

/// Rows of the output pane at a width, the prompt line included, as far
/// as `usize` counts.
pub open spec fn visual_rows(lines: Seq<LineView>, filter: Option<u32>, manifest: Option<DeviceManifest>, offset: usize, width: int) -> int {
    let w = if width < 1 { 1 } else { width };
    let total = rows_of(lines, manifest, filter, w) + match input_state(filter, manifest) {
        InputState::Passthrough(c) => if shows_prompt(lines, filter, manifest, offset) {
            line_rows(prefix_width(manifest, Some(c as u32)), 0, w)
        } else {
            0
        },
        _ => 0,
    };
    if total > usize::MAX { usize::MAX as int } else { total }
}

proof fn lemma_rows_nonneg(lines: Seq<LineView>, manifest: Option<DeviceManifest>, filter: Option<u32>, w: int)
    requires
        w >= 1,
    ensures
        rows_of(lines, manifest, filter, w) >= 0,
    decreases lines.len(),
{
    if lines.len() > 0 {
        lemma_rows_nonneg(lines.drop_last(), manifest, filter, w);
        lemma_visual_height_nonneg(w);
    }
}

proof fn lemma_visual_height_nonneg(w: int)
    requires
        w >= 1,
    ensures
        forall|t: int| #[trigger] crate::tui::visual_height(t, w) >= 0,
{
    assert forall|t: int| #[trigger] crate::tui::visual_height(t, w) >= 0 by {
        let x = if t < 1 { 1 } else { t };
        assert((x + w - 1) / w >= 0) by (nonlinear_arith)
            requires x >= 1, w >= 1;
    }
}

/// The content of a bordered pane: the area less one cell on each side.
pub open spec fn content_height(area: OutputArea) -> int {
    sat_sub(area.height as int, 2)
}

pub open spec fn content_width(area: OutputArea) -> int {
    sat_sub(area.width as int, 2)
}

/// The status after a scroll: following live output, or how far back.
pub open spec fn scroll_status(offset: usize) -> Seq<char> {
    if offset == 0 {
        "scrollback: following live output"@
    } else {
        "scrollback paused: "@ + crate::text::decimal_chars(offset as nat) + " lines from bottom"@
    }
}

fn scroll_status_text(offset: usize) -> (r: String)
    ensures
        r@ == scroll_status(offset),
{
    if offset == 0 {
        "scrollback: following live output".to_owned()
    } else {
        let mut out = "scrollback paused: ".to_owned();
        let d = decimal_string(offset as u64);
        push_str(&mut out, d.as_str());
        push_str(&mut out, " lines from bottom");
        out
    }
}

/// Rows a line takes, counted in `u128` so that nothing overflows.
fn line_rows_exec(prefix: Option<usize>, t: usize, w: usize) -> (r: u128)
    requires
        w >= 1,
    ensures
        r as int == line_rows(match prefix { Some(p) => Some(p as int), None => None }, t as int, w as int),
{
    proof {
        lemma_visual_height_nonneg(w as int);
    }
    match prefix {
        None => crate::tui::wrapped_visual_height(t, w) as u128,
        Some(p) => {
            let first = w.saturating_sub(p);
            if first == 0 {
                1u128 + crate::tui::wrapped_visual_height(t, w) as u128
            } else if t > first {
                1u128 + crate::tui::wrapped_visual_height(t - first, w) as u128
            } else {
                1u128
            }
        },
    }
}

/// A record: on a passthrough channel its text continues the channel's
/// stream (and the view follows live output when the record is on the
/// channel typed into); on other channels it is added as lines.
pub open spec fn record_pushed(a: App, b: App, envelope: MuxEnvelope) -> bool {
    let text = crate::text::utf8_lossy(envelope.payload@);
    let ch = Some(envelope.channel_id);
    &&& if a.manifest matches Some(m) && supports_passthrough(m, envelope.channel_id) {
        let follows = input_channel(a.filter) matches Some(c) && c as u32 == envelope.channel_id;
        let st = if follows { StreamState { offset: 0, target: None, ..a.stream_state() } } else { a.stream_state() };
        &&& b.stream_state() == stream_pushed(st, a.filter, ch, text)
        &&& b.empty_enter_restore_count == (if follows { 0 } else { a.empty_enter_restore_count })
        &&& b.dragging_scrollbar == (if follows { false } else { a.dragging_scrollbar })
    } else {
        &&& b.stream_state() == line_pushed(a.stream_state(), a.filter, ch, text)
        &&& b.empty_enter_restore_count == a.empty_enter_restore_count
        &&& b.dragging_scrollbar == a.dragging_scrollbar
    }
    &&& b.input == a.input
    &&& b.filter == a.filter
    &&& b.prefix_pending == a.prefix_pending
    &&& b.status == a.status
    &&& b.manifest == a.manifest
    &&& b.should_quit == a.should_quit
    &&& b.exit_escape_pending == a.exit_escape_pending
}

impl App {
    pub open spec fn rows_at(&self, width: int) -> int {
        visual_rows(lines_view(self.lines@), self.filter, self.manifest, self.scroll_offset, width)
    }

    /// A line of the host's own, after `wiremux> `.
    pub fn push_marker(&mut self, message: &str)
        ensures
            final(self).stream_state() == line_pushed(old(self).stream_state(), old(self).filter, None, "wiremux> "@ + message@),
            final(self).same_controls(&*old(self)),
    {
        let mut text = "wiremux> ".to_owned();
        push_str(&mut text, message);
        self.push_line(None, text.as_str());
    }

    /// Bytes that came outside any record, as lines of the host's own.
    pub fn push_terminal(&mut self, bytes: &[u8])
        ensures
            final(self).stream_state() == line_pushed(old(self).stream_state(), old(self).filter, None, crate::text::utf8_lossy(bytes@)),
            final(self).same_controls(&*old(self)),
    {
        let text = crate::text::string_from_utf8_lossy(bytes);
        self.push_line(None, text.as_str());
    }

    /// Follows live output again.
    pub fn follow_live_output(&mut self)
        ensures
            final(self).scroll_offset == 0,
            final(self).scroll_target_offset is None,
            final(self).empty_enter_restore_count == 0,
            !final(self).dragging_scrollbar,
            final(self).lines == old(self).lines,
            final(self).stream_cr_pending_channel == old(self).stream_cr_pending_channel,
            final(self).input == old(self).input,
            final(self).filter == old(self).filter,
            final(self).prefix_pending == old(self).prefix_pending,
            final(self).status == old(self).status,
            final(self).manifest == old(self).manifest,
            final(self).should_quit == old(self).should_quit,
            final(self).exit_escape_pending == old(self).exit_escape_pending,
            final(self).diagnostics_path == old(self).diagnostics_path,
    {
        self.scroll_offset = 0;
        self.scroll_target_offset = None;
        self.empty_enter_restore_count = 0;
        self.dragging_scrollbar = false;
    }

    /// A record: on a passthrough channel its text continues the channel's
    /// stream (and the view follows live output when the record is on the
    /// channel typed into); on other channels it is added as lines.
    pub fn push_record(&mut self, envelope: &MuxEnvelope)
        ensures
            record_pushed(*old(self), *final(self), *envelope),
    {
        let text = crate::text::string_from_utf8_lossy(envelope.payload.as_slice());
        if self.channel_is_passthrough(envelope.channel_id) {
            let follows = match self.active_input_channel() {
                Some(c) => c as u32 == envelope.channel_id,
                None => false,
            };
            if follows {
                self.follow_live_output();
            }
            self.push_stream(Some(envelope.channel_id), text.as_str());
        } else {
            self.push_line(Some(envelope.channel_id), text.as_str());
        }
    }

    /// Rows of the output pane at a width.
    pub fn filtered_visual_row_count(&self, output_width: usize) -> (r: usize)
        ensures
            r as int == self.rows_at(output_width as int),
    {
        let w: usize = if output_width < 1 { 1 } else { output_width };
        let ghost lv = lines_view(self.lines@);
        proof {
            lemma_rows_nonneg(lv, self.manifest, self.filter, w as int);
        }
        let max = usize::MAX as u128;
        let mut acc: u128 = 0;
        let mut i: usize = 0;
        let mut last_of_active: Option<bool> = None;
        let state = self.active_input_state();
        let active: Option<u32> = match state {
            InputState::Passthrough(c) => Some(c as u32),
            _ => None,
        };
        while i < self.lines.len()
            invariant
                i <= self.lines@.len(),
                lv == lines_view(self.lines@),
                w >= 1,
                max == usize::MAX,
                acc as int == (if rows_of(lv.subrange(0, i as int), self.manifest, self.filter, w as int) > usize::MAX {
                    usize::MAX as int
                } else {
                    rows_of(lv.subrange(0, i as int), self.manifest, self.filter, w as int)
                }),
                active matches Some(c) ==> match last_of_channel(lv.subrange(0, i as int), Some(c)) {
                    Some(l) => last_of_active == Some(l.complete),
                    None => last_of_active is None,
                },
            decreases self.lines@.len() - i,
        {
            let ghost sub = lv.subrange(0, i as int + 1);
            proof {
                assert(sub.drop_last() =~= lv.subrange(0, i as int));
                assert(sub.last() == self.lines@[i as int]@);
                lemma_rows_nonneg(lv.subrange(0, i as int), self.manifest, self.filter, w as int);
            }
            let line = &self.lines[i];
            match active {
                Some(c) => {
                    if line.channel == Some(c) {
                        last_of_active = Some(line.complete);
                    }
                },
                None => {},
            }
            if self.line_matches_filter(line) {
                let prefix: Option<usize> = match line.channel {
                    Some(c) => {
                        let p = self.channel_prefix(c);
                        let n = p.as_str().unicode_len();
                        if n < usize::MAX - 2 { Some(n + 2) } else { Some(usize::MAX) }
                    },
                    None => None,
                };
                let t = line.text.as_str().unicode_len();
                let rows = line_rows_exec(prefix, t, w);
                let sum = acc + rows;
                acc = if sum > max { max } else { sum };
            }
            i = i + 1;
        }
        assert(lv.subrange(0, i as int) =~= lv);
        match active {
            Some(c) => {
                let prompt = self.scroll_offset == 0 && match last_of_active {
                    Some(complete) => complete,
                    None => true,
                };
                if prompt {
                    let p = self.channel_prefix(c);
                    let n = p.as_str().unicode_len();
                    let pw = if n < usize::MAX - 2 { n + 2 } else { usize::MAX };
                    let rows = line_rows_exec(Some(pw), 0, w);
                    let sum = acc + rows;
                    acc = if sum > max { max } else { sum };
                }
            },
            None => {},
        }
        acc as usize
    }
}

// ---------------------------------------------------------------------
// Scrollback

/// `b` is `a` scrolled `lines` further back, up to the oldest view.
pub open spec fn scrolled_up_by(a: App, b: App, area: OutputArea, lines: usize) -> bool {
    &&& lines == 0 ==> b == a
    &&& lines > 0 ==> ({
        let max = a.max_offset_in(area);
        &&& b.same_content(&a)
        &&& b.empty_enter_restore_count == 0
        &&& b.scroll_target_offset is None
        &&& b.dragging_scrollbar == a.dragging_scrollbar
        &&& if max == 0 {
            b.scroll_offset == 0 && b.status == a.status
        } else {
            &&& b.scroll_offset as int == (if a.scroll_offset + lines > max { max } else { a.scroll_offset + lines })
            &&& b.status@ == scroll_status(b.scroll_offset)
        }
    })
}

/// `b` is `a` scrolled `lines` toward the live tail.
pub open spec fn scrolled_down_by(a: App, b: App, area: OutputArea, lines: usize) -> bool {
    &&& lines == 0 ==> b == a
    &&& lines > 0 ==> ({
        let max = a.max_offset_in(area);
        let clamped = if a.scroll_offset > max { max } else { a.scroll_offset as int };
        &&& b.same_content(&a)
        &&& b.empty_enter_restore_count == 0
        &&& b.scroll_target_offset is None
        &&& b.dragging_scrollbar == a.dragging_scrollbar
        &&& b.scroll_offset as int == (if a.scroll_offset == 0 { 0 } else { sat_sub(clamped, lines as int) })
        &&& b.status@ == scroll_status(b.scroll_offset)
    })
}

/// `b` is `a` following live output again, and saying so.
pub open spec fn followed_live(a: App, b: App) -> bool {
    &&& b.same_content(&a)
    &&& b.scroll_offset == 0
    &&& b.scroll_target_offset is None
    &&& b.empty_enter_restore_count == 0
    &&& !b.dragging_scrollbar
    &&& b.status@ == scroll_status(0)
}

/// `b` is `a` at the oldest view the area allows.
pub open spec fn jumped_to_oldest(a: App, b: App, area: OutputArea) -> bool {
    &&& b.same_content(&a)
    &&& b.scroll_offset as int == a.max_offset_in(area)
    &&& b.scroll_target_offset is None
    &&& b.empty_enter_restore_count == 0
    &&& !b.dragging_scrollbar
    &&& b.status@ == scroll_status(b.scroll_offset)
}

/// `b` is `a` animating toward an offset, clamped to the oldest view; no
/// target when the view is there already.
pub open spec fn animated_toward(a: App, b: App, offset: usize, area: OutputArea) -> bool {
    let max = a.max_offset_in(area);
    let target = if offset > max { max } else { offset as int };
    &&& b.scroll_target_offset == (if target == a.scroll_offset { None } else { Some(target as usize) })
    &&& b.same_content(&a)
    &&& b.scroll_offset == a.scroll_offset
    &&& b.empty_enter_restore_count == 0
    &&& b.dragging_scrollbar == a.dragging_scrollbar
    &&& b.status == a.status
}

/// `b` is `a` with the count of empty Enters reset.
pub open spec fn restore_reset(a: App, b: App) -> bool {
    &&& b.same_content(&a)
    &&& b.empty_enter_restore_count == 0
    &&& b.scroll_offset == a.scroll_offset
    &&& b.scroll_target_offset == a.scroll_target_offset
    &&& b.dragging_scrollbar == a.dragging_scrollbar
    &&& b.status == a.status
}

/// The animation toward a scroll target: a fifth of the distance per
/// frame, at least one line and at most twelve.
pub open spec fn animation_step(offset: usize, target: usize) -> usize {
    let distance = if offset < target { target - offset } else { offset - target };
    let step = (distance + 4) / 5;
    let step = if step < 1 { 1 } else if step > 12 { 12 } else { step };
    if offset < target {
        if offset + step > target { target } else { (offset + step) as usize }
    } else {
        if offset - step < target { target } else { (offset - step) as usize }
    }
}

pub const EMPTY_ENTER_MESSAGE: &'static str = "scrollback paused: press Enter again to follow live output";

impl App {
    /// What scrolling leaves alone.
    pub open spec fn same_content(&self, other: &App) -> bool {
        &&& self.lines == other.lines
        &&& self.input == other.input
        &&& self.filter == other.filter
        &&& self.prefix_pending == other.prefix_pending
        &&& self.manifest == other.manifest
        &&& self.should_quit == other.should_quit
        &&& self.stream_cr_pending_channel == other.stream_cr_pending_channel
        &&& self.exit_escape_pending == other.exit_escape_pending
        &&& self.diagnostics_path == other.diagnostics_path
    }

    /// How far back the view can scroll in the area.
    pub open spec fn max_offset_in(&self, area: OutputArea) -> int {
        crate::tui::max_scroll(self.rows_at(content_width(area)), content_height(area))
    }

    pub fn max_scroll_offset(&self, output_area: OutputArea) -> (r: usize)
        ensures
            r as int == self.max_offset_in(output_area),
    {
        let height = output_area.height.saturating_sub(2) as usize;
        let width = output_area.width.saturating_sub(2) as usize;
        crate::tui::max_scroll_offset(self.filtered_visual_row_count(width), height)
    }

    /// Scrolls `lines` further back, up to the oldest view.
    pub fn scroll_up_by(&mut self, output_area: OutputArea, lines: usize)
        ensures
            scrolled_up_by(*old(self), *final(self), output_area, lines),
    {
        if lines == 0 {
            return;
        }
        self.empty_enter_restore_count = 0;
        self.scroll_target_offset = None;
        let max_offset = self.max_scroll_offset(output_area);
        if max_offset == 0 {
            self.scroll_offset = 0;
            return;
        }
        let raised = self.scroll_offset.saturating_add(lines);
        self.scroll_offset = if raised < max_offset { raised } else { max_offset };
        self.status = scroll_status_text(self.scroll_offset);
    }

    /// Scrolls `lines` toward the live tail.
    pub fn scroll_down_by(&mut self, output_area: OutputArea, lines: usize)
        ensures
            scrolled_down_by(*old(self), *final(self), output_area, lines),
    {
        if lines == 0 {
            return;
        }
        self.empty_enter_restore_count = 0;
        self.scroll_target_offset = None;
        if self.scroll_offset == 0 {
            self.status = scroll_status_text(0);
            return;
        }
        let max_offset = self.max_scroll_offset(output_area);
        if self.scroll_offset > max_offset {
            self.scroll_offset = max_offset;
        }
        self.scroll_offset = self.scroll_offset.saturating_sub(lines);
        self.status = scroll_status_text(self.scroll_offset);
    }

    pub fn scroll_up(&mut self, output_area: OutputArea)
        ensures
            scrolled_up_by(*old(self), *final(self), output_area, WHEEL_SCROLL_LINES),
    {
        self.scroll_up_by(output_area, WHEEL_SCROLL_LINES);
    }

    pub fn scroll_down(&mut self, output_area: OutputArea)
        ensures
            scrolled_down_by(*old(self), *final(self), output_area, WHEEL_SCROLL_LINES),
    {
        self.scroll_down_by(output_area, WHEEL_SCROLL_LINES);
    }

    /// Follows live output and says so.
    pub fn restore_auto_follow(&mut self)
        ensures
            followed_live(*old(self), *final(self)),
    {
        self.follow_live_output();
        self.status = scroll_status_text(0);
    }

    /// Shows the oldest lines.
    pub fn jump_to_oldest_visible(&mut self, output_area: OutputArea)
        ensures
            jumped_to_oldest(*old(self), *final(self), output_area),
    {
        self.empty_enter_restore_count = 0;
        self.scroll_target_offset = None;
        self.dragging_scrollbar = false;
        let max_offset = self.max_scroll_offset(output_area);
        self.scroll_offset = max_offset;
        self.status = scroll_status_text(self.scroll_offset);
    }

    /// Sets the offset the view animates toward, clamped to the oldest
    /// view; none when the view is there already.
    pub fn animate_to_scroll_offset(&mut self, scroll_offset: usize, output_area: OutputArea)
        ensures
            animated_toward(*old(self), *final(self), scroll_offset, output_area),
    {
        self.empty_enter_restore_count = 0;
        let max_offset = self.max_scroll_offset(output_area);
        let target = if scroll_offset > max_offset { max_offset } else { scroll_offset };
        if target == self.scroll_offset {
            self.scroll_target_offset = None;
        } else {
            self.scroll_target_offset = Some(target);
        }
    }

    /// One frame of the scroll animation; whether it goes on.
    pub fn advance_scroll_animation(&mut self) -> (r: bool)
        ensures
            final(self).same_content(&*old(self)),
            final(self).empty_enter_restore_count == old(self).empty_enter_restore_count,
            final(self).dragging_scrollbar == old(self).dragging_scrollbar,
            final(self).status == old(self).status,
            match old(self).scroll_target_offset {
                None => !r && final(self).scroll_offset == old(self).scroll_offset && final(self).scroll_target_offset is None,
                Some(t) => {
                    let o = if old(self).scroll_offset == t { t } else { animation_step(old(self).scroll_offset, t) };
                    &&& final(self).scroll_offset == o
                    &&& final(self).scroll_target_offset == (if o == t { None } else { Some(t) })
                    &&& r == (o != t)
                },
            },
    {
        let target = match self.scroll_target_offset {
            Some(t) => t,
            None => {
                return false;
            },
        };
        if self.scroll_offset == target {
            self.scroll_target_offset = None;
            return false;
        }
        let distance: u128 = if self.scroll_offset < target {
            (target - self.scroll_offset) as u128
        } else {
            (self.scroll_offset - target) as u128
        };
        let raw = (distance + 4) / 5;
        let step: usize = if raw < 1 { 1 } else if raw > 12 { 12 } else { raw as usize };
        if self.scroll_offset < target {
            let raised = self.scroll_offset.saturating_add(step);
            self.scroll_offset = if raised < target { raised } else { target };
        } else {
            let lowered = self.scroll_offset.saturating_sub(step);
            self.scroll_offset = if lowered > target { lowered } else { target };
        }
        if self.scroll_offset == target {
            self.scroll_target_offset = None;
        }
        self.scroll_target_offset.is_some()
    }

    pub fn reset_empty_enter_restore(&mut self)
        ensures
            restore_reset(*old(self), *final(self)),
    {
        self.empty_enter_restore_count = 0;
    }

    /// An empty Enter while scrolled back: the second in a row follows
    /// live output again.
    pub fn handle_empty_enter_restore(&mut self)
        ensures
            final(self).same_content(&*old(self)),
            old(self).scroll_offset == 0 ==> final(self).empty_enter_restore_count == 0
                && final(self).scroll_offset == 0
                && final(self).scroll_target_offset == old(self).scroll_target_offset
                && final(self).dragging_scrollbar == old(self).dragging_scrollbar
                && final(self).status == old(self).status,
            old(self).scroll_offset > 0 && old(self).empty_enter_restore_count >= 1 ==> final(self).scroll_offset == 0
                && final(self).scroll_target_offset is None
                && final(self).empty_enter_restore_count == 0
                && !final(self).dragging_scrollbar
                && final(self).status@ == scroll_status(0),
            old(self).scroll_offset > 0 && old(self).empty_enter_restore_count == 0 ==> final(self).scroll_offset == old(self).scroll_offset
                && final(self).scroll_target_offset == old(self).scroll_target_offset
                && final(self).empty_enter_restore_count == 1
                && final(self).dragging_scrollbar == old(self).dragging_scrollbar
                && final(self).status@ == EMPTY_ENTER_MESSAGE@,
    {
        if self.scroll_offset == 0 {
            self.empty_enter_restore_count = 0;
            return;
        }
        self.empty_enter_restore_count = self.empty_enter_restore_count.saturating_add(1);
        if self.empty_enter_restore_count >= 2 {
            self.restore_auto_follow();
        } else {
            self.status = EMPTY_ENTER_MESSAGE.to_owned();
        }
    }

    /// The status line: the status, or how far back the view stands.
    pub fn status_label(&self) -> (r: String)
        ensures
            r@ == status_text(*self),
    {
        if self.scroll_offset == 0 {
            return self.status.clone();
        }
        let mut out = "scrollback: ".to_owned();
        let d = decimal_string(self.scroll_offset as u64);
        push_str(&mut out, d.as_str());
        push_str(&mut out, " lines from bottom");
        out
    }
}

// ---------------------------------------------------------------------
// Keys

/// What a key asks of the host program beyond the state: open the
/// settings panel, hand the key to it, copy or clear the mouse selection,
/// or send bytes to a channel as a line or as passthrough input.
#[derive(Clone, Debug, PartialEq, Eq)]
pub enum TuiAction {
    OpenSettings,
    ForwardToSettings,
    CopySelection,
    ClearSelection,
    SendLine { channel: u8, payload: Vec<u8> },
    SendPassthrough { channel: u8, payload: Vec<u8> },
}

pub open spec fn ctrl_c(key: TerminalKey) -> bool {
    key.control && !key.shift && key.code == TerminalKeyCode::Char('c')
}

pub open spec fn no_modifiers(key: TerminalKey) -> bool {
    !key.control && !key.alt && !key.shift && !key.super_key
}

/// Keys that copy a selection: Enter, `y`, `Ctrl-Shift-C` and `Cmd-C`.
pub open spec fn copy_key(key: TerminalKey) -> bool {
    ||| key.code == TerminalKeyCode::Enter
    ||| key.code == TerminalKeyCode::Char('y') && no_modifiers(key)
    ||| (key.code == TerminalKeyCode::Char('c') || key.code == TerminalKeyCode::Char('C')) && key.control && key.shift
    ||| (key.code == TerminalKeyCode::Char('c') || key.code == TerminalKeyCode::Char('C')) && key.super_key
}

pub fn is_copy_key(key: TerminalKey) -> (r: bool)
    ensures
        r == copy_key(key),
{
    match key.code {
        TerminalKeyCode::Enter => true,
        TerminalKeyCode::Char(c) => {
            (c == 'y' && !key.control && !key.alt && !key.shift && !key.super_key)
                || ((c == 'c' || c == 'C') && key.control && key.shift)
                || ((c == 'c' || c == 'C') && key.super_key)
        },
        _ => false,
    }
}

pub open spec fn state_channel(s: InputState) -> Option<u8> {
    match s {
        InputState::ReadOnly => None,
        InputState::Line(c) => Some(c),
        InputState::Passthrough(c) => Some(c),
    }
}

/// Only the status changed, to `msg`.
pub open spec fn status_set(a: App, b: App, msg: Seq<char>) -> bool {
    b.status@ == msg && b == App { status: b.status, ..a }
}

/// The input was cleared and the status set to `msg`.
pub open spec fn input_cleared(a: App, b: App, msg: Seq<char>) -> bool {
    b.input@.len() == 0 && b.status@ == msg && b == App { input: b.input, status: b.status, ..a }
}

/// A key sent to the passthrough channel typed into: its bytes under the
/// channel's newline policy, the view back on live output, and the
/// status saying what was sent (or that nothing is connected).
pub open spec fn passthrough_sent(a: App, b: App, acts: Seq<TuiAction>, key: TerminalKey, connected: bool) -> bool {
    match state_channel(input_state(a.filter, a.manifest)) {
        None => acts.len() == 0 && input_cleared(a, b, "input is read-only"@),
        Some(c) => match key_payload(key, crate::passthrough::channel_policy(a.manifest, c as u32)) {
            None => acts.len() == 0 && b == a,
            Some(p) => if connected {
                &&& acts.len() == 1
                &&& acts[0] matches TuiAction::SendPassthrough { channel, payload } && channel == c && payload@ == p
                &&& b.input@.len() == 0
                &&& b.status@ == "passthrough sent "@ + crate::text::decimal_chars(p.len()) + " bytes to ch"@
                    + crate::text::decimal_chars(c as nat)
                &&& b == App {
                    input: b.input,
                    status: b.status,
                    scroll_offset: 0,
                    scroll_target_offset: None,
                    empty_enter_restore_count: 0,
                    dragging_scrollbar: false,
                    ..a
                }
            } else {
                &&& acts.len() == 0
                &&& b.status@ == "not connected; passthrough input not sent"@
                &&& b == App {
                    status: b.status,
                    scroll_offset: 0,
                    scroll_target_offset: None,
                    empty_enter_restore_count: 0,
                    dragging_scrollbar: false,
                    ..a
                }
            },
        },
    }
}

/// A held-back escape, once it is clear that no `x` follows: sent on to
/// a passthrough channel, else it clears the input line.
pub open spec fn escape_applied(a: App, b: App, acts: Seq<TuiAction>, connected: bool) -> bool {
    match input_state(a.filter, a.manifest) {
        InputState::Passthrough(_) => passthrough_sent(a, b, acts, crate::passthrough::escape_key(), connected),
        InputState::ReadOnly => acts.len() == 0 && input_cleared(a, b, "input is read-only"@),
        InputState::Line(_) => acts.len() == 0 && b.input@.len() == 0 && b.status@ == "input cleared"@
            && b == App { input: b.input, status: b.status, empty_enter_restore_count: 0, ..a },
    }
}

/// An empty Enter while scrolled back.
pub open spec fn empty_enter_done(a: App, b: App) -> bool {
    if a.scroll_offset == 0 {
        b == App { empty_enter_restore_count: 0, ..a }
    } else if a.empty_enter_restore_count >= 1 {
        b.status@ == scroll_status(0) && b == App {
            status: b.status,
            scroll_offset: 0,
            scroll_target_offset: None,
            empty_enter_restore_count: 0,
            dragging_scrollbar: false,
            ..a
        }
    } else {
        b.status@ == EMPTY_ENTER_MESSAGE@ && b == App { status: b.status, empty_enter_restore_count: 1, ..a }
    }
}

/// A filter chosen after the prefix: the view follows live output, input
/// that cannot be sent any more is cleared.
pub open spec fn filter_chosen(a: App, b: App, filter: Option<u32>, msg: Seq<char>) -> bool {
    &&& b.status@ == msg
    &&& (input_state(filter, a.manifest) is ReadOnly ==> b.input@.len() == 0)
    &&& (!(input_state(filter, a.manifest) is ReadOnly) ==> b.input == a.input)
    &&& b == App {
        filter,
        input: b.input,
        status: b.status,
        scroll_offset: 0,
        scroll_target_offset: None,
        empty_enter_restore_count: 0,
        dragging_scrollbar: false,
        ..a
    }
}

/// The key after the `Ctrl-B` prefix: `0` shows all channels, `1` to `9`
/// one channel, `s` opens the settings, Esc cancels.
pub open spec fn prefix_done(a: App, b: App, acts: Seq<TuiAction>, key: TerminalKey) -> bool {
    match key.code {
        TerminalKeyCode::Char(c) => if c == '0' {
            acts.len() == 0 && filter_chosen(a, b, None, "filter: all"@)
        } else if '1' <= c && c <= '9' {
            acts.len() == 0 && filter_chosen(a, b, Some((c as u32 - 48) as u32), "filter: ch"@ + seq![c])
        } else if c == 's' || c == 'S' {
            acts == seq![TuiAction::OpenSettings] && status_set(a, b, "settings"@)
        } else {
            acts.len() == 0 && status_set(a, b, "unknown prefix command"@)
        },
        TerminalKeyCode::Esc => acts.len() == 0 && status_set(a, b, "prefix cancelled"@),
        _ => acts.len() == 0 && status_set(a, b, "unknown prefix command"@),
    }
}

/// A key for the input line.
pub open spec fn input_done(a: App, b: App, acts: Seq<TuiAction>, key: TerminalKey, connected: bool) -> bool {
    match input_state(a.filter, a.manifest) {
        InputState::ReadOnly => acts.len() == 0 && match key.code {
            TerminalKeyCode::Enter => if a.input@.len() == 0 {
                empty_enter_done(a, b)
            } else {
                b.input@.len() == 0 && b.status@ == "input is read-only"@
                    && b == App { input: b.input, status: b.status, empty_enter_restore_count: 0, ..a }
            },
            TerminalKeyCode::Char(_) | TerminalKeyCode::Backspace => b.input@.len() == 0
                && b.status@ == "input is read-only"@
                && b == App { input: b.input, status: b.status, empty_enter_restore_count: 0, ..a },
            _ => b == a,
        },
        InputState::Passthrough(_) => passthrough_sent(a, b, acts, key, connected),
        InputState::Line(c) => match key.code {
            TerminalKeyCode::Char(ch) => acts.len() == 0 && b.input@ == a.input@.push(ch)
                && b == App { input: b.input, empty_enter_restore_count: 0, ..a },
            TerminalKeyCode::Backspace => acts.len() == 0
                && b.input@ == (if a.input@.len() > 0 { a.input@.drop_last() } else { a.input@ })
                && b == App { input: b.input, empty_enter_restore_count: 0, ..a },
            TerminalKeyCode::Enter => if a.input@.len() == 0 {
                acts.len() == 0 && empty_enter_done(a, b)
            } else if connected {
                let bytes = vstd::utf8::encode_utf8(a.input@);
                &&& acts.len() == 1
                &&& acts[0] matches TuiAction::SendLine { channel, payload } && channel == c && payload@ == bytes
                &&& b.input@.len() == 0
                &&& b.status@ == "sent "@ + crate::text::decimal_chars(bytes.len()) + " bytes to ch"@ + crate::text::decimal_chars(c as nat)
                &&& b == App { input: b.input, status: b.status, empty_enter_restore_count: 0, ..a }
            } else {
                acts.len() == 0 && b.status@ == "not connected; input not sent"@
                    && b == App { status: b.status, empty_enter_restore_count: 0, ..a }
            },
            _ => acts.len() == 0 && b == a,
        },
    }
}

/// What a key does once no settings panel or selection takes it and it
/// is no exit key: the held-back escape first, then the prefix, the exit
/// escape, or the input line.
pub open spec fn stage_one(a: App, a1: App, acts1: Seq<TuiAction>, key: TerminalKey, connected: bool) -> bool {
    if a.exit_escape_pending {
        if crate::passthrough::x_key(key) {
            acts1.len() == 0 && a1 == App { exit_escape_pending: false, should_quit: true, ..a }
        } else {
            escape_applied(App { exit_escape_pending: false, ..a }, a1, acts1, connected)
        }
    } else {
        acts1.len() == 0 && a1 == a
    }
}

pub open spec fn stage_two(a1: App, b: App, acts2: Seq<TuiAction>, key: TerminalKey, connected: bool) -> bool {
    if key.control && key.code == TerminalKeyCode::Char('b') {
        acts2.len() == 0 && b.status@ == "prefix: press 0 for all or 1..9 for channel"@
            && b == App { prefix_pending: true, status: b.status, ..a1 }
    } else if a1.prefix_pending {
        prefix_done(App { prefix_pending: false, ..a1 }, b, acts2, key)
    } else if key.code == TerminalKeyCode::Esc {
        acts2.len() == 0 && b.status@ == "exit prefix: press x to quit"@
            && b == App { exit_escape_pending: true, status: b.status, ..a1 }
    } else {
        input_done(a1, b, acts2, key, connected)
    }
}

fn chars_string(chars: &[char]) -> (r: String)
    ensures
        r@ == chars@,
{
    string_from_chars(chars)
}

impl App {
    /// Sends a key to the passthrough channel typed into.
    pub fn send_tui_passthrough_key(&mut self, key: TerminalKey, connected: bool) -> (r: Vec<TuiAction>)
        ensures
            passthrough_sent(*old(self), *final(self), r@, key, connected),
    {
        let mut acts: Vec<TuiAction> = Vec::new();
        let channel = match self.active_input_state().channel() {
            Some(c) => c,
            None => {
                self.input = String::new();
                self.status = "input is read-only".to_owned();
                return acts;
            },
        };
        let payload = match crate::passthrough::passthrough_key_bytes(channel, key, self.manifest.as_ref()) {
            Some(p) => p,
            None => {
                return acts;
            },
        };
        self.restore_auto_follow();
        if connected {
            let mut status = "passthrough sent ".to_owned();
            let n = decimal_string(payload.len() as u64);
            push_str(&mut status, n.as_str());
            push_str(&mut status, " bytes to ch");
            let c = decimal_string(channel as u64);
            push_str(&mut status, c.as_str());
            self.status = status;
            self.input = String::new();
            acts.push(TuiAction::SendPassthrough { channel, payload });
        } else {
            self.status = "not connected; passthrough input not sent".to_owned();
        }
        acts
    }

    /// Applies a held-back escape.
    pub fn apply_pending_escape(&mut self, connected: bool) -> (r: Vec<TuiAction>)
        ensures
            escape_applied(*old(self), *final(self), r@, connected),
    {
        let state = self.active_input_state();
        match state {
            InputState::Passthrough(_) => {
                let esc = TerminalKey { code: TerminalKeyCode::Esc, control: false, alt: false, shift: false, super_key: false };
                self.send_tui_passthrough_key(esc, connected)
            },
            InputState::ReadOnly => {
                self.input = String::new();
                self.status = "input is read-only".to_owned();
                Vec::new()
            },
            InputState::Line(_) => {
                self.empty_enter_restore_count = 0;
                self.input = String::new();
                self.status = "input cleared".to_owned();
                Vec::new()
            },
        }
    }

    /// The escape timeout passed: a held-back escape is applied; `None`
    /// when none was held back.
    pub fn handle_exit_escape_timeout(&mut self, connected: bool) -> (r: Option<Vec<TuiAction>>)
        ensures
            !old(self).exit_escape_pending ==> r is None && *final(self) == *old(self),
            old(self).exit_escape_pending ==> (r matches Some(acts)
                && escape_applied(App { exit_escape_pending: false, ..*old(self) }, *final(self), acts@, connected)),
    {
        if !self.exit_escape_pending {
            return None;
        }
        self.exit_escape_pending = false;
        Some(self.apply_pending_escape(connected))
    }

    fn filter_to(&mut self, filter: Option<u32>, status: String)
        ensures
            filter_chosen(*old(self), *final(self), filter, status@),
    {
        self.filter = filter;
        self.restore_auto_follow();
        self.clear_input_if_read_only();
        self.status = status;
    }

    fn prefix_command(&mut self, key: TerminalKey) -> (r: Vec<TuiAction>)
        ensures
            prefix_done(*old(self), *final(self), r@, key),
    {
        let mut acts: Vec<TuiAction> = Vec::new();
        match key.code {
            TerminalKeyCode::Char(c) => {
                if c == '0' {
                    self.filter_to(None, "filter: all".to_owned());
                } else if '1' <= c && c <= '9' {
                    let digit = (c as u32) - 48;
                    let mut status = "filter: ch".to_owned();
                    let d: Vec<char> = vec![c];
                    let ds = chars_string(d.as_slice());
                    push_str(&mut status, ds.as_str());
                    assert(d@ =~= seq![c]);
                    self.filter_to(Some(digit), status);
                } else if c == 's' || c == 'S' {
                    self.status = "settings".to_owned();
                    acts.push(TuiAction::OpenSettings);
                    assert(acts@ =~= seq![TuiAction::OpenSettings]);
                } else {
                    self.status = "unknown prefix command".to_owned();
                }
            },
            TerminalKeyCode::Esc => {
                self.status = "prefix cancelled".to_owned();
            },
            _ => {
                self.status = "unknown prefix command".to_owned();
            },
        }
        acts
    }

    fn input_key(&mut self, key: TerminalKey, connected: bool) -> (r: Vec<TuiAction>)
        ensures
            input_done(*old(self), *final(self), r@, key, connected),
    {
        let mut acts: Vec<TuiAction> = Vec::new();
        match self.active_input_state() {
            InputState::ReadOnly => {
                match key.code {
                    TerminalKeyCode::Enter => {
                        if self.input.as_str().unicode_len() == 0 {
                            self.handle_empty_enter_restore();
                        } else {
                            self.input = String::new();
                            self.empty_enter_restore_count = 0;
                            self.status = "input is read-only".to_owned();
                        }
                    },
                    TerminalKeyCode::Char(_) | TerminalKeyCode::Backspace => {
                        self.input = String::new();
                        self.empty_enter_restore_count = 0;
                        self.status = "input is read-only".to_owned();
                    },
                    _ => {},
                }
                acts
            },
            InputState::Passthrough(_) => self.send_tui_passthrough_key(key, connected),
            InputState::Line(channel) => {
                match key.code {
                    TerminalKeyCode::Char(ch) => {
                        self.empty_enter_restore_count = 0;
                        let mut chars = str_chars(self.input.as_str());
                        chars.push(ch);
                        self.input = chars_string(chars.as_slice());
                    },
                    TerminalKeyCode::Backspace => {
                        self.empty_enter_restore_count = 0;
                        let mut chars = str_chars(self.input.as_str());
                        if chars.len() > 0 {
                            chars.pop();
                        }
                        self.input = chars_string(chars.as_slice());
                    },
                    TerminalKeyCode::Enter => {
                        if self.input.as_str().unicode_len() == 0 {
                            self.handle_empty_enter_restore();
                            return acts;
                        }
                        self.empty_enter_restore_count = 0;
                        if connected {
                            let payload = crate::text::str_bytes(self.input.as_str());
                            let mut status = "sent ".to_owned();
                            let n = decimal_string(payload.len() as u64);
                            push_str(&mut status, n.as_str());
                            push_str(&mut status, " bytes to ch");
                            let c = decimal_string(channel as u64);
                            push_str(&mut status, c.as_str());
                            self.status = status;
                            self.input = String::new();
                            acts.push(TuiAction::SendLine { channel, payload });
                        } else {
                            self.status = "not connected; input not sent".to_owned();
                        }
                    },
                    _ => {},
                }
                acts
            },
        }
    }

    /// What a key does. The host program says whether the settings panel
    /// is open, whether a selection with text (and whether any selection)
    /// is on screen, and whether a device is connected; it performs the
    /// returned actions in order. `Ctrl-C`, `Ctrl-]` and `Alt-x` quit, as
    /// does Esc then `x`.
    pub fn handle_key(&mut self, key: TerminalKey, settings_open: bool, has_selection: bool, selection_present: bool, connected: bool) -> (r: Vec<TuiAction>)
        ensures
            ({
                let a = *old(self);
                let b = *final(self);
                if ctrl_c(key) {
                    r@.len() == 0 && b == App { should_quit: true, ..a }
                } else if settings_open {
                    r@ == seq![TuiAction::ForwardToSettings] && b == a
                } else if has_selection && copy_key(key) {
                    r@ == seq![TuiAction::CopySelection] && b == a
                } else if key.code == TerminalKeyCode::Esc && selection_present {
                    r@ == seq![TuiAction::ClearSelection] && status_set(a, b, "selection cleared"@)
                } else if crate::passthrough::exit_key(key) || (key.alt && crate::passthrough::x_key(key)) {
                    r@.len() == 0 && b == App { should_quit: true, ..a }
                } else if a.exit_escape_pending && crate::passthrough::x_key(key) {
                    r@.len() == 0 && b == App { exit_escape_pending: false, should_quit: true, ..a }
                } else {
                    exists|a1: App, acts1: Seq<TuiAction>, acts2: Seq<TuiAction>| {
                        &&& stage_one(a, a1, acts1, key, connected)
                        &&& stage_two(a1, b, acts2, key, connected)
                        &&& r@ == acts1 + acts2
                    }
                }
            }),
    {
        let mut acts: Vec<TuiAction> = Vec::new();
        if key.control && !key.shift && key.code == TerminalKeyCode::Char('c') {
            self.should_quit = true;
            return acts;
        }
        if settings_open {
            acts.push(TuiAction::ForwardToSettings);
            assert(acts@ =~= seq![TuiAction::ForwardToSettings]);
            return acts;
        }
        if has_selection && is_copy_key(key) {
            acts.push(TuiAction::CopySelection);
            assert(acts@ =~= seq![TuiAction::CopySelection]);
            return acts;
        }
        if key.code == TerminalKeyCode::Esc && selection_present {
            self.status = "selection cleared".to_owned();
            acts.push(TuiAction::ClearSelection);
            assert(acts@ =~= seq![TuiAction::ClearSelection]);
            return acts;
        }
        if crate::interactive::is_passthrough_exit_key(key) || crate::interactive::is_passthrough_meta_exit_key(key) {
            self.should_quit = true;
            return acts;
        }
        let ghost a = *old(self);
        if self.exit_escape_pending {
            self.exit_escape_pending = false;
            if crate::interactive::is_passthrough_escape_exit_suffix(key) {
                self.should_quit = true;
                return acts;
            }
            acts = self.apply_pending_escape(connected);
        }
        let ghost a1 = *self;
        let ghost acts1 = acts@;
        assert(stage_one(a, a1, acts1, key, connected));
        let more: Vec<TuiAction> = if key.control && key.code == TerminalKeyCode::Char('b') {
            self.prefix_pending = true;
            self.status = "prefix: press 0 for all or 1..9 for channel".to_owned();
            Vec::new()
        } else if self.prefix_pending {
            self.prefix_pending = false;
            self.prefix_command(key)
        } else if key.code == TerminalKeyCode::Esc {
            self.exit_escape_pending = true;
            self.status = "exit prefix: press x to quit".to_owned();
            Vec::new()
        } else {
            self.input_key(key, connected)
        };
        let ghost acts2 = more@;
        assert(stage_two(a1, *self, acts2, key, connected));
        let mut more = more;
        acts.append(&mut more);
        assert(acts@ =~= acts1 + acts2);
        acts
    }
}

// ---------------------------------------------------------------------
// Host events

/// A marker line of the host's own was added.
pub open spec fn marker_pushed(a: App, b: App, message: Seq<char>) -> bool {
    b.stream_state() == line_pushed(a.stream_state(), a.filter, None, "wiremux> "@ + message) && b.same_controls(&a)
}

impl App {
    /// Reports a host event: records and outside bytes to the log, a
    /// diagnostics line for each protocol event and a marker line for the
    /// ones the user should see, and a manifest to the state.
    pub fn handle_stream_event(&mut self, diagnostics: &mut String, event: HostEvent)
        ensures
            match event {
                HostEvent::Terminal(bytes) => final(diagnostics)@ == old(diagnostics)@
                    && final(self).stream_state() == line_pushed(old(self).stream_state(), old(self).filter, None, crate::text::utf8_lossy(bytes@))
                    && final(self).same_controls(&*old(self)),
                HostEvent::Record(e) => final(diagnostics)@ == old(diagnostics)@ + crate::host_session::envelope_diagnostics(e)
                    && record_pushed(*old(self), *final(self), e),
                HostEvent::Manifest(m) => final(diagnostics)@ == old(diagnostics)@
                    && final(self).stream_state() == line_pushed(old(self).stream_state(), old(self).filter, None,
                        "wiremux> "@ + "manifest received: "@ + crate::text::decimal_chars(m.channels@.len()) + " channels"@)
                    && final(self).manifest == Some(m)
                    && (input_state(old(self).filter, Some(m)) is ReadOnly ==> final(self).input@.len() == 0)
                    && (!(input_state(old(self).filter, Some(m)) is ReadOnly) ==> final(self).input == old(self).input)
                    && final(self).filter == old(self).filter
                    && final(self).status == old(self).status
                    && final(self).should_quit == old(self).should_quit,
                HostEvent::ProtocolCompatibility(c) => final(diagnostics)@ == old(diagnostics)@ + crate::display::compatibility_line(c)
                    && match c.compatibility {
                        ProtocolCompatibilityKind::UnsupportedNew => marker_pushed(*old(self), *final(self), "device protocol is newer; upgrade host SDK/tool"@),
                        ProtocolCompatibilityKind::UnsupportedOld => marker_pushed(*old(self), *final(self), "device protocol is too old for this host"@),
                        _ => *final(self) == *old(self),
                    },
                HostEvent::BatchSummary(summary) => final(diagnostics)@ == old(diagnostics)@ + crate::display::batch_line(summary)
                    && *final(self) == *old(self),
                HostEvent::DecodeError(e) => final(diagnostics)@ == old(diagnostics)@ + crate::display::decode_error_line(e)
                    && marker_pushed(*old(self), *final(self), crate::host_session::decode_marker(e.stage)),
                HostEvent::CrcError(e) => final(diagnostics)@ == old(diagnostics)@ + crate::display::crc_line(e)
                    && marker_pushed(*old(self), *final(self), "crc error; details in diagnostics"@),
            },
    {
        match event {
            HostEvent::Terminal(bytes) => {
                self.push_terminal(bytes.as_slice());
            },
            HostEvent::Record(envelope) => {
                crate::host_session::write_envelope_diagnostics(diagnostics, &envelope);
                self.push_record(&envelope);
            },
            HostEvent::Manifest(manifest) => {
                let mut message = "manifest received: ".to_owned();
                let n = decimal_string(manifest.channels.len() as u64);
                push_str(&mut message, n.as_str());
                push_str(&mut message, " channels");
                let ghost before = self.stream_state();
                self.push_marker(message.as_str());
                assert("wiremux> "@ + message@ =~= "wiremux> "@ + "manifest received: "@
                    + crate::text::decimal_chars(manifest.channels@.len()) + " channels"@);
                self.manifest = Some(manifest);
                self.clear_input_if_read_only();
            },
            HostEvent::ProtocolCompatibility(compatibility) => {
                crate::display::push_compatibility_line(diagnostics, &compatibility);
                match compatibility.compatibility {
                    ProtocolCompatibilityKind::UnsupportedNew => {
                        self.push_marker("device protocol is newer; upgrade host SDK/tool");
                    },
                    ProtocolCompatibilityKind::UnsupportedOld => {
                        self.push_marker("device protocol is too old for this host");
                    },
                    _ => {},
                }
            },
            HostEvent::BatchSummary(summary) => {
                crate::display::push_batch_line(diagnostics, &summary);
            },
            HostEvent::DecodeError(err) => {
                crate::display::push_decode_error_line(diagnostics, &err);
                self.push_marker(crate::host_session::decode_error_marker(err.stage));
            },
            HostEvent::CrcError(err) => {
                crate::display::push_crc_line(diagnostics, &err);
                self.push_marker("crc error; details in diagnostics");
            },
        }
    }
}

// ---------------------------------------------------------------------
// Laws

/// Two empty Enters in a row while scrolled back bring the view back to
/// live output.
pub proof fn lemma_two_empty_enters_follow_live(a: App, b: App, c: App)
    requires
        a.scroll_offset > 0,
        a.empty_enter_restore_count == 0,
        empty_enter_done(a, b),
        empty_enter_done(b, c),
    ensures
        b.scroll_offset == a.scroll_offset,
        b.empty_enter_restore_count == 1,
        c.scroll_offset == 0,
        c.scroll_target_offset is None,
        c.empty_enter_restore_count == 0,
        c.status@ == scroll_status(0),
{
}

/// A view scrolled back by `offset` lines keeps showing the same lines
/// when `n` new lines arrive and the offset grows by `n`, as long as the
/// view was not past the oldest lines.
pub proof fn lemma_pinned_window_stays(total: nat, height: nat, offset: nat, n: nat)
    requires
        height > 0,
        0 < offset <= crate::tui::max_scroll(total as int, height as int),
    ensures
        crate::tui::window((total + n) as int, height as int, (offset + n) as int)
            == crate::tui::window(total as int, height as int, offset as int),
{
}

/// Splitting a text into lines: every line but the last was ended by a
/// break, the last one exactly when the text ends in a break, and only an
/// empty text gives no lines.
pub proof fn lemma_pieces_complete_except_last(s: Seq<char>)
    ensures
        forall|k: int| 0 <= k < text_pieces(s).len() - 1 ==> #[trigger] text_pieces(s)[k].1,
        text_pieces(s).len() > 0 ==> (text_pieces(s).last().1 <==> (s.last() == '\n' || s.last() == '\r')),
        text_pieces(s).len() == 0 <==> s.len() == 0,
{
    lemma_split_state(s);
}

proof fn lemma_split_state(s: Seq<char>)
    ensures
        forall|k: int| 0 <= k < split_state(s).0.len() ==> #[trigger] split_state(s).0[k].1,
        s.len() > 0 && (s.last() == '\n' || s.last() == '\r') ==> split_state(s).1.len() == 0 && split_state(s).0.len() > 0,
        s.len() > 0 && !(s.last() == '\n' || s.last() == '\r') ==> split_state(s).1.len() > 0,
        s.len() == 0 ==> split_state(s).0.len() == 0 && split_state(s).1.len() == 0,
    decreases s.len(),
{
    if s.len() > 0 {
        lemma_split_state(s.drop_last());
        let (done, cur) = split_state(s.drop_last());
        let c = s.last();
        if c == '\n' || c == '\r' {
            assert forall|k: int| 0 <= k < done.push((cur, true)).len() implies #[trigger] done.push((cur, true))[k].1 by {
                if k < done.len() {
                    assert(done.push((cur, true))[k] == done[k]);
                }
            }
        }
    }
}

} // verus!
