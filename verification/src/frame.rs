//! Framing: finding protocol frames inside a mixed byte stream.
use vstd::prelude::*;
use crate::crc32;
use crate::crc32::crc32;
use crate::wire::{copy_range, extend_bytes};

verus! {

/// Bytes that open every frame.
pub const MAGIC: [u8; 4] = [0x45, 0x53, 0x4D, 0x58];
pub const SUPPORTED_VERSION: u8 = 1;
pub const HEADER_LEN: usize = 14;
pub const DEFAULT_MAX_PAYLOAD_LEN: usize = 1048576;

const VERSION_OFFSET: usize = 4;
const FLAGS_OFFSET: usize = 5;
const LENGTH_OFFSET: usize = 6;
const CRC_OFFSET: usize = 10;

/// A frame that passed its checks.
#[derive(Debug, Clone, PartialEq, Eq)]
pub struct MuxFrame {
    pub version: u8,
    pub flags: u8,
    pub payload: Vec<u8>,
}

/// What the scanner found in the stream.
#[derive(Debug, Clone, PartialEq, Eq)]
pub enum StreamEvent {
    Terminal(Vec<u8>),
    Frame(MuxFrame),
    FrameError(FrameError),
}

/// A frame whose payload did not match its checksum.
#[derive(Debug, Clone, Copy, PartialEq, Eq)]
pub enum FrameError {
    CrcMismatch { version: u8, flags: u8, payload_len: usize, expected_crc: u32, actual_crc: u32 },
}

/// Why a frame could not be built.
#[derive(Debug, Clone, Copy, PartialEq, Eq)]
pub enum BuildFrameError {
    PayloadTooLarge { len: usize, max: usize },
}

/// The mathematical content of a stream event.
pub enum EventView {
    Terminal(Seq<u8>),
    Frame { version: u8, flags: u8, payload: Seq<u8> },
    FrameError(FrameError),
}

impl StreamEvent {
    pub open spec fn view(&self) -> EventView {
        match self {
            StreamEvent::Terminal(b) => EventView::Terminal(b@),
            StreamEvent::Frame(f) => EventView::Frame { version: f.version, flags: f.flags, payload: f.payload@ },
            StreamEvent::FrameError(e) => EventView::FrameError(*e),
        }
    }
}

/// The views of a list of events.
pub open spec fn events_view(events: Seq<StreamEvent>) -> Seq<EventView> {
    events.map_values(|e: StreamEvent| e.view())
}

/// The magic as a sequence.
pub open spec fn magic_seq() -> Seq<u8> {
    seq![0x45u8, 0x53u8, 0x4Du8, 0x58u8]
}

/// Whether the magic starts at `i`.
pub open spec fn magic_at(buf: Seq<u8>, i: int) -> bool {
    0 <= i && i + 4 <= buf.len() && buf.subrange(i, i + 4) == magic_seq()
}

/// The first position at or after `i` where the magic starts.
pub open spec fn find_magic_from(buf: Seq<u8>, i: int) -> Option<int>
    decreases buf.len() - i,
{
    if i < 0 || i + 4 > buf.len() {
        None
    } else if magic_at(buf, i) {
        Some(i)
    } else {
        find_magic_from(buf, i + 1)
    }
}

/// The first position where the magic starts.
pub open spec fn spec_find_magic(buf: Seq<u8>) -> Option<int> {
    find_magic_from(buf, 0)
}

/// Whether the last `l` bytes of `buf` are the first `l` bytes of the magic.
pub open spec fn suffix_is_magic_prefix(buf: Seq<u8>, l: int) -> bool {
    0 < l <= 4 && l <= buf.len() && buf.subrange(buf.len() - l, buf.len() as int) == magic_seq().subrange(0, l)
}

/// The longest `l <= n` whose suffix is a magic prefix, or zero.
pub open spec fn magic_suffix_from(buf: Seq<u8>, n: int) -> int
    decreases n,
{
    if n <= 0 {
        0
    } else if suffix_is_magic_prefix(buf, n) {
        n
    } else {
        magic_suffix_from(buf, n - 1)
    }
}

/// Length of the longest tail of `buf` (shorter than the magic) that could
/// be the start of a magic still to come.
pub open spec fn spec_magic_prefix_suffix_len(buf: Seq<u8>) -> int {
    magic_suffix_from(buf, if buf.len() < 3 { buf.len() as int } else { 3 })
}

/// A little-endian `u32` at `off`.
pub open spec fn le_u32(buf: Seq<u8>, off: int) -> u32 {
    ((buf[off] as u32) | ((buf[off + 1] as u32) << 8u32) | ((buf[off + 2] as u32) << 16u32) | ((buf[off + 3] as u32) << 24u32)) as u32
}

/// The little-endian bytes of a `u32`.
pub open spec fn le_bytes(v: u32) -> Seq<u8> {
    seq![(v & 0xff) as u8, ((v >> 8u32) & 0xff) as u8, ((v >> 16u32) & 0xff) as u8, ((v >> 24u32) & 0xff) as u8]
}

/// Scanning a buffer: the events found, in order, and what is kept for
/// later because it may still become (part of) a frame.
///
/// Bytes before a magic are terminal output. At a magic, a header with an
/// unsupported version or an oversized length turns its first byte into
/// terminal output and scanning resumes after it; a complete frame is
/// checked against its CRC and reported as a frame or a CRC error. With no
/// magic in sight, everything but a possible magic prefix at the end is
/// terminal output.
pub open spec fn spec_scan(buf: Seq<u8>, max_payload_len: usize) -> (Seq<EventView>, Seq<u8>)
    decreases buf.len(),
{
    match spec_find_magic(buf) {
        None => {
            let keep = spec_magic_prefix_suffix_len(buf);
            let emit = buf.len() - keep;
            if emit > 0 {
                (seq![EventView::Terminal(buf.subrange(0, emit))], buf.subrange(emit, buf.len() as int))
            } else {
                (Seq::empty(), buf)
            }
        },
        Some(p) => {
            proof {
                lemma_find_magic_from(buf, 0);
            }
            if p > 0 {
                let rest = spec_scan(buf.subrange(p, buf.len() as int), max_payload_len);
                (seq![EventView::Terminal(buf.subrange(0, p))] + rest.0, rest.1)
            } else if buf.len() < HEADER_LEN {
                (Seq::empty(), buf)
            } else if buf[4] != SUPPORTED_VERSION || le_u32(buf, 6) > max_payload_len {
                let rest = spec_scan(buf.subrange(1, buf.len() as int), max_payload_len);
                (seq![EventView::Terminal(buf.subrange(0, 1))] + rest.0, rest.1)
            } else {
                let payload_len = le_u32(buf, 6) as int;
                let total = HEADER_LEN + payload_len;
                if buf.len() < total {
                    (Seq::empty(), buf)
                } else {
                    let payload = buf.subrange(HEADER_LEN as int, total);
                    let expected = le_u32(buf, 10);
                    let actual = crc32::spec_crc32(payload);
                    let event = if actual != expected {
                        EventView::FrameError(FrameError::CrcMismatch {
                            version: buf[4],
                            flags: buf[5],
                            payload_len: payload_len as usize,
                            expected_crc: expected,
                            actual_crc: actual,
                        })
                    } else {
                        EventView::Frame { version: buf[4], flags: buf[5], payload }
                    };
                    let rest = spec_scan(buf.subrange(total, buf.len() as int), max_payload_len);
                    (seq![event] + rest.0, rest.1)
                }
            }
        },
    }
}

/// Merging runs of adjacent terminal events into one.
pub open spec fn merge_terminals(events: Seq<EventView>) -> Seq<EventView>
    decreases events.len(),
{
    if events.len() == 0 {
        Seq::empty()
    } else {
        push_merged(merge_terminals(events.drop_last()), events.last())
    }
}

/// Appending one event, joining it to a terminal event just before it.
pub open spec fn push_merged(merged: Seq<EventView>, e: EventView) -> Seq<EventView> {
    if merged.len() > 0 && merged.last() is Terminal && e is Terminal {
        merged.drop_last().push(EventView::Terminal(merged.last()->Terminal_0 + e->Terminal_0))
    } else {
        merged.push(e)
    }
}

/// The bytes of a frame: magic, version, flags, payload length and CRC
/// (both little-endian), then the payload.
pub open spec fn spec_frame_bytes(flags: u8, payload: Seq<u8>) -> Seq<u8> {
    magic_seq() + seq![SUPPORTED_VERSION, flags] + le_bytes(payload.len() as u32) + le_bytes(crc32::spec_crc32(payload)) + payload
}

/// Incremental scanner over a serial byte stream.
#[derive(Debug)]
pub struct FrameScanner {
    buffer: Vec<u8>,
    max_payload_len: usize,
}

impl FrameScanner {
    /// The bytes held back for the next call.
    pub closed spec fn pending(&self) -> Seq<u8> {
        self.buffer@
    }

    /// The largest payload the scanner accepts.
    pub closed spec fn max_len(&self) -> usize {
        self.max_payload_len
    }

    /// A scanner holding nothing.
    pub fn new(max_payload_len: usize) -> (r: Self)
        ensures
            r.pending() == Seq::<u8>::empty(),
            r.max_len() == max_payload_len,
    {
        FrameScanner { buffer: Vec::new(), max_payload_len }
    }

    /// Feeds bytes; returns what can be decided now, with adjacent terminal
    /// output merged, and keeps the rest.
    pub fn push(&mut self, bytes: &[u8]) -> (r: Vec<StreamEvent>)
        ensures
            final(self).max_len() == old(self).max_len(),
            ({
                let (events, rest) = spec_scan(old(self).pending() + bytes@, old(self).max_len());
                &&& final(self).pending() == rest
                &&& events_view(r@) == merge_terminals(events)
            }),
    {
        extend_bytes(&mut self.buffer, bytes);
        let ghost all = self.buffer@;
        let ghost max = self.max_payload_len;
        let mut events: Vec<StreamEvent> = Vec::new();
        let ghost mut found: Seq<EventView> = Seq::empty();
        loop
            invariant
                self.max_payload_len == max,
                max == old(self).max_payload_len,
                all == old(self).buffer@ + bytes@,
                events_view(events@) == found,
                ({
                    let (e_now, r_now) = spec_scan(self.buffer@, max);
                    spec_scan(all, max) == (found + e_now, r_now)
                }),
            ensures
                self.max_payload_len == max,
                spec_scan(all, max) == (found, self.buffer@),
                events_view(events@) == found,
            decreases self.buffer@.len(),
        {
            let ghost buf = self.buffer@;
            proof {
                lemma_find_magic_from(buf, 0);
            }
            match find_magic(self.buffer.as_slice()) {
                None => {
                    let keep_len = magic_prefix_suffix_len(self.buffer.as_slice());
                    let emit_len = self.buffer.len() - keep_len;
                    if emit_len > 0 {
                        let front = take_front(&mut self.buffer, emit_len);
                        proof {
                            found = found.push(EventView::Terminal(front@));
                            assert(seq![EventView::Terminal(front@)] =~= Seq::<EventView>::empty().push(EventView::Terminal(front@)));
                        }
                        events.push(StreamEvent::Terminal(front));
                        proof {
                            assert(events_view(events@) =~= found);
                            lemma_scan_kept_tail(buf, max);
                            assert(self.buffer@ =~= buf.subrange(buf.len() - keep_len, buf.len() as int));
                        }
                    }
                    break;
                },
                Some(magic_pos) => {
                    if magic_pos > 0 {
                        let front = take_front(&mut self.buffer, magic_pos);
                        proof {
                            found = found.push(EventView::Terminal(front@));
                        }
                        events.push(StreamEvent::Terminal(front));
                        proof {
                            assert(events_view(events@) =~= found);
                            let rest = spec_scan(self.buffer@, max);
                            assert(self.buffer@ =~= buf.subrange(magic_pos as int, buf.len() as int));
                            assert(spec_find_magic(buf) == Some(magic_pos as int));
                            assert(front@ == buf.subrange(0, magic_pos as int));
                            assert(spec_scan(buf, max) == (seq![EventView::Terminal(front@)] + rest.0, rest.1));
                            assert(found + rest.0 =~= found.drop_last() + (seq![EventView::Terminal(front@)] + rest.0));
                        }
                        continue;
                    }
                    if self.buffer.len() < HEADER_LEN {
                        proof {
                            assert(found + Seq::<EventView>::empty() =~= found);
                        }
                        break;
                    }
                    let version = self.buffer[VERSION_OFFSET];
                    let flags = self.buffer[FLAGS_OFFSET];
                    let payload_len_u32 = read_le_u32(self.buffer.as_slice(), LENGTH_OFFSET);
                    if version != SUPPORTED_VERSION || payload_len_u32 as usize > self.max_payload_len
                        || (payload_len_u32 as u64) > (self.max_payload_len as u64) {
                        let front = take_front(&mut self.buffer, 1);
                        proof {
                            found = found.push(EventView::Terminal(front@));
                        }
                        events.push(StreamEvent::Terminal(front));
                        proof {
                            assert(events_view(events@) =~= found);
                            let rest = spec_scan(self.buffer@, max);
                            assert(self.buffer@ =~= buf.subrange(1, buf.len() as int));
                            assert(spec_scan(buf, max) == (seq![EventView::Terminal(front@)] + rest.0, rest.1));
                            assert(found + rest.0 =~= found.drop_last() + (seq![EventView::Terminal(front@)] + rest.0));
                        }
                        continue;
                    }
                    let payload_len = payload_len_u32 as usize;
                    if self.buffer.len() - HEADER_LEN < payload_len {
                        proof {
                            assert(found + Seq::<EventView>::empty() =~= found);
                        }
                        break;
                    }
                    let total_len = HEADER_LEN + payload_len;
                    let expected_crc = read_le_u32(self.buffer.as_slice(), CRC_OFFSET);
                    let payload = copy_range(self.buffer.as_slice(), HEADER_LEN, total_len);
                    let actual_crc = crc32(payload.as_slice());
                    let _consumed = take_front(&mut self.buffer, total_len);
                    let event = if actual_crc != expected_crc {
                        StreamEvent::FrameError(FrameError::CrcMismatch {
                            version,
                            flags,
                            payload_len,
                            expected_crc,
                            actual_crc,
                        })
                    } else {
                        StreamEvent::Frame(MuxFrame { version, flags, payload })
                    };
                    proof {
                        found = found.push(event.view());
                    }
                    events.push(event);
                    proof {
                        assert(events_view(events@) =~= found);
                        let rest = spec_scan(self.buffer@, max);
                        assert(self.buffer@ =~= buf.subrange(total_len as int, buf.len() as int));
                        assert(payload@ =~= buf.subrange(HEADER_LEN as int, total_len as int));
                        assert(spec_scan(buf, max) == (seq![event.view()] + rest.0, rest.1));
                        assert(found + rest.0 =~= found.drop_last() + (seq![event.view()] + rest.0));
                    }
                },
            }
        }
        merge_terminal_events(events)
    }

    /// Flushes everything still held back as terminal output.
    pub fn finish(&mut self) -> (r: Vec<StreamEvent>)
        ensures
            final(self).pending() == Seq::<u8>::empty(),
            final(self).max_len() == old(self).max_len(),
            old(self).pending().len() == 0 ==> r@.len() == 0,
            old(self).pending().len() > 0 ==> events_view(r@) == seq![EventView::Terminal(old(self).pending())],
    {
        if self.buffer.len() == 0 {
            return Vec::new();
        }
        let mut all: Vec<u8> = Vec::new();
        std::mem::swap(&mut all, &mut self.buffer);
        let mut out: Vec<StreamEvent> = Vec::new();
        out.push(StreamEvent::Terminal(all));
        proof {
            assert(events_view(out@) =~= seq![EventView::Terminal(old(self).pending())]);
        }
        out
    }
}

impl Default for FrameScanner {
    fn default() -> (r: Self)
        ensures
            r.pending() == Seq::<u8>::empty(),
            r.max_len() == DEFAULT_MAX_PAYLOAD_LEN,
    {
        Self::new(DEFAULT_MAX_PAYLOAD_LEN)
    }
}

/// The kept tail of a buffer without magic is itself a magic prefix, so
/// scanning it decides nothing.
proof fn lemma_scan_kept_tail(buf: Seq<u8>, max: usize)
    requires
        spec_find_magic(buf) is None,
    ensures
        ({
            let keep = spec_magic_prefix_suffix_len(buf);
            let tail = buf.subrange(buf.len() - keep, buf.len() as int);
            spec_scan(tail, max) == (Seq::<EventView>::empty(), tail)
        }),
{
    let n = if buf.len() < 3 { buf.len() as int } else { 3 };
    lemma_magic_suffix_from(buf, n);
    let keep = spec_magic_prefix_suffix_len(buf);
    let tail = buf.subrange(buf.len() - keep, buf.len() as int);
    assert(tail.len() == keep);
    assert(keep <= 3);
    assert(spec_find_magic(tail) is None);
    if keep > 0 {
        assert(tail.subrange(tail.len() - keep, tail.len() as int) =~= tail);
        assert(suffix_is_magic_prefix(tail, keep));
        let m = if tail.len() < 3 { tail.len() as int } else { 3 };
        assert(m == keep);
        assert(magic_suffix_from(tail, m) == keep);
    } else {
        assert(tail.len() == 0);
    }
}

proof fn lemma_magic_suffix_from(buf: Seq<u8>, n: int)
    requires
        n <= buf.len(),
        n <= 4,
    ensures
        0 <= magic_suffix_from(buf, n) <= if n < 0 { 0 } else { n },
        magic_suffix_from(buf, n) > 0 ==> suffix_is_magic_prefix(buf, magic_suffix_from(buf, n)),
    decreases n,
{
    if n > 0 && !suffix_is_magic_prefix(buf, n) {
        lemma_magic_suffix_from(buf, n - 1);
    }
}

/// Where the magic search stops, the magic is.
pub proof fn lemma_find_magic_from(buf: Seq<u8>, i: int)
    ensures
        find_magic_from(buf, i) matches Some(p) ==> i <= p && magic_at(buf, p),
        find_magic_from(buf, i) is None && 0 <= i ==> forall|j: int| i <= j ==> !magic_at(buf, j),
    decreases buf.len() - i,
{
    if !(i < 0 || i + 4 > buf.len()) && !magic_at(buf, i) {
        lemma_find_magic_from(buf, i + 1);
    }
}

/// Removes and returns the first `n` bytes.
fn take_front(buf: &mut Vec<u8>, n: usize) -> (r: Vec<u8>)
    requires
        n <= old(buf)@.len(),
    ensures
        r@ == old(buf)@.subrange(0, n as int),
        final(buf)@ == old(buf)@.subrange(n as int, old(buf)@.len() as int),
{
    let mut tail = buf.split_off(n);
    std::mem::swap(buf, &mut tail);
    tail
}

/// Reads a little-endian `u32` at `off`.
fn read_le_u32(buf: &[u8], off: usize) -> (r: u32)
    requires
        off + 4 <= buf@.len(),
    ensures
        r == le_u32(buf@, off as int),
{
    (buf[off] as u32) | ((buf[off + 1] as u32) << 8u32) | ((buf[off + 2] as u32) << 16u32) | ((buf[off + 3] as u32) << 24u32)
}

/// First position where the magic starts.
pub fn find_magic(buffer: &[u8]) -> (r: Option<usize>)
    ensures
        r matches Some(i) ==> spec_find_magic(buffer@) == Some(i as int),
        r is None <==> spec_find_magic(buffer@) is None,
{
    if buffer.len() < 4 {
        return None;
    }
    let mut i: usize = 0;
    while i <= buffer.len() - 4
        invariant
            buffer@.len() >= 4,
            i <= buffer@.len() - 3,
            spec_find_magic(buffer@) == find_magic_from(buffer@, i as int),
        decreases buffer@.len() - i,
    {
        if buffer[i] == 0x45 && buffer[i + 1] == 0x53 && buffer[i + 2] == 0x4D && buffer[i + 3] == 0x58 {
            assert(buffer@.subrange(i as int, i as int + 4) =~= magic_seq());
            return Some(i);
        }
        assert(!magic_at(buffer@, i as int)) by {
            if magic_at(buffer@, i as int) {
                assert(buffer@.subrange(i as int, i as int + 4)[0] == buffer@[i as int]);
                assert(buffer@.subrange(i as int, i as int + 4)[1] == buffer@[i as int + 1]);
                assert(buffer@.subrange(i as int, i as int + 4)[2] == buffer@[i as int + 2]);
                assert(buffer@.subrange(i as int, i as int + 4)[3] == buffer@[i as int + 3]);
            }
        }
        i = i + 1;
    }
    None
}

/// Length of the tail of `buffer` that may be the start of a magic.
pub fn magic_prefix_suffix_len(buffer: &[u8]) -> (r: usize)
    ensures
        r == spec_magic_prefix_suffix_len(buffer@),
        r <= buffer@.len(),
        r <= 3,
{
    let max_len = if buffer.len() < 3 { buffer.len() } else { 3 };
    let mut len = max_len;
    while len > 0
        invariant
            len <= max_len,
            max_len <= 3,
            max_len <= buffer@.len(),
            spec_magic_prefix_suffix_len(buffer@) == magic_suffix_from(buffer@, len as int),
        decreases len,
    {
        let start = buffer.len() - len;
        let mut j: usize = 0;
        let mut matches = true;
        assert(buffer@.subrange(start as int, start as int) =~= magic_seq().subrange(0, 0));
        while j < len
            invariant
                j <= len,
                len <= 3,
                start + len == buffer@.len(),
                buffer@.len() == buffer.len(),
                matches == (buffer@.subrange(start as int, start + j) == magic_seq().subrange(0, j as int)),
            decreases len - j,
        {
            let expected: u8 = if j == 0 { 0x45 } else if j == 1 { 0x53 } else { 0x4D };
            assert(expected == magic_seq()[j as int]);
            assert(start + j < buffer@.len());
            let same = buffer[start + j] == expected;
            proof {
                let a = buffer@.subrange(start as int, start + j + 1);
                let b = magic_seq().subrange(0, j as int + 1);
                if matches && same {
                    assert(a =~= b);
                } else if !same {
                    assert(a[j as int] != b[j as int]);
                } else {
                    assert(a.subrange(0, j as int) =~= buffer@.subrange(start as int, start + j));
                    assert(b.subrange(0, j as int) =~= magic_seq().subrange(0, j as int));
                }
            }
            matches = matches && same;
            j = j + 1;
        }
        if matches {
            return len;
        }
        len = len - 1;
    }
    0
}

/// Merges runs of adjacent terminal events into one.
pub fn merge_terminal_events(events: Vec<StreamEvent>) -> (r: Vec<StreamEvent>)
    ensures
        events_view(r@) == merge_terminals(events_view(events@)),
{
    let ghost given = events_view(events@);
    let mut pending = events;
    let mut reversed: Vec<StreamEvent> = Vec::new();
    while pending.len() > 0
        invariant
            given == events_view(pending@) + events_view(reversed@).reverse(),
        decreases pending@.len(),
    {
        let ghost p = pending@;
        let ghost rv = reversed@;
        match pending.pop() {
            Some(e) => {
                reversed.push(e);
                proof {
                    assert(pending@ == p.drop_last());
                    assert(events_view(p) =~= events_view(pending@).push(e.view()));
                    assert(events_view(reversed@) =~= events_view(rv).push(e.view()));
                    assert(events_view(reversed@).reverse() =~= seq![e.view()] + events_view(rv).reverse());
                    assert(given =~= events_view(pending@) + events_view(reversed@).reverse());
                }
            },
            None => {},
        }
    }
    assert(events_view(pending@) =~= Seq::<EventView>::empty());
    let mut merged: Vec<StreamEvent> = Vec::new();
    let ghost mut done: Seq<EventView> = Seq::empty();
    assert(given =~= done + events_view(reversed@).reverse());
    while reversed.len() > 0
        invariant
            given == done + events_view(reversed@).reverse(),
            events_view(merged@) == merge_terminals(done),
        decreases reversed@.len(),
    {
        let ghost rv = reversed@;
        match reversed.pop() {
            Some(e) => {
                proof {
                    assert(reversed@ == rv.drop_last());
                    assert(events_view(rv) =~= events_view(reversed@).push(e.view()));
                    assert(events_view(rv).reverse() =~= seq![e.view()] + events_view(reversed@).reverse());
                    let d2 = done.push(e.view());
                    assert(d2.drop_last() =~= done);
                    assert(given =~= d2 + events_view(reversed@).reverse());
                    done = d2;
                }
                push_event_merged(&mut merged, e);
            },
            None => {},
        }
    }
    assert(done =~= given);
    merged
}

/// Appends an event, joining terminal output to a terminal event before it.
fn push_event_merged(merged: &mut Vec<StreamEvent>, e: StreamEvent)
    ensures
        events_view(final(merged)@) == push_merged(events_view(old(merged)@), e.view()),
{
    let ghost before = events_view(merged@);
    match e {
        StreamEvent::Terminal(mut next) => {
            let last = merged.pop();
            match last {
                Some(StreamEvent::Terminal(mut existing)) => {
                    let ghost a = existing@;
                    existing.append(&mut next);
                    merged.push(StreamEvent::Terminal(existing));
                    proof {
                        assert(events_view(merged@) =~= before.drop_last().push(EventView::Terminal(a + e.view()->Terminal_0)));
                    }
                },
                Some(other) => {
                    merged.push(other);
                    merged.push(StreamEvent::Terminal(next));
                    proof {
                        assert(events_view(merged@) =~= before.push(e.view()));
                    }
                },
                None => {
                    merged.push(StreamEvent::Terminal(next));
                    proof {
                        assert(events_view(merged@) =~= before.push(e.view()));
                    }
                },
            }
        },
        other => {
            merged.push(other);
            proof {
                assert(events_view(merged@) =~= before.push(e.view()));
            }
        },
    }
}

/// Builds a frame around `payload` with the default size limit.
pub fn build_frame_payload(flags: u8, payload: &[u8]) -> (r: Result<Vec<u8>, BuildFrameError>)
    ensures
        payload@.len() > DEFAULT_MAX_PAYLOAD_LEN ==> r == Err::<Vec<u8>, BuildFrameError>(
            BuildFrameError::PayloadTooLarge { len: payload@.len() as usize, max: DEFAULT_MAX_PAYLOAD_LEN },
        ),
        payload@.len() <= DEFAULT_MAX_PAYLOAD_LEN ==> r is Ok && r->Ok_0@ == spec_frame_bytes(flags, payload@),
{
    build_frame_payload_with_max(flags, payload, DEFAULT_MAX_PAYLOAD_LEN)
}

/// Builds a frame around `payload`, refusing payloads longer than the limit.
pub fn build_frame_payload_with_max(flags: u8, payload: &[u8], max_payload_len: usize) -> (r: Result<Vec<u8>, BuildFrameError>)
    ensures
        payload@.len() > max_payload_len ==> r == Err::<Vec<u8>, BuildFrameError>(
            BuildFrameError::PayloadTooLarge { len: payload@.len() as usize, max: max_payload_len },
        ),
        payload@.len() <= max_payload_len ==> r is Ok && r->Ok_0@ == spec_frame_bytes(flags, payload@),
{
    if payload.len() > max_payload_len {
        return Err(BuildFrameError::PayloadTooLarge { len: payload.len(), max: max_payload_len });
    }
    let mut frame: Vec<u8> = Vec::with_capacity(payload.len().saturating_add(HEADER_LEN));
    frame.push(0x45);
    frame.push(0x53);
    frame.push(0x4D);
    frame.push(0x58);
    frame.push(SUPPORTED_VERSION);
    frame.push(flags);
    push_le_u32(&mut frame, payload.len() as u32);
    push_le_u32(&mut frame, crc32(payload));
    extend_bytes(&mut frame, payload);
    assert(frame@ =~= spec_frame_bytes(flags, payload@));
    Ok(frame)
}

fn push_le_u32(out: &mut Vec<u8>, v: u32)
    ensures
        final(out)@ == old(out)@ + le_bytes(v),
{
    out.push((v & 0xff) as u8);
    out.push(((v >> 8u32) & 0xff) as u8);
    out.push(((v >> 16u32) & 0xff) as u8);
    out.push(((v >> 24u32) & 0xff) as u8);
    assert(final(out)@ =~= old(out)@ + le_bytes(v));
}

} // verus!

verus! {

proof fn lemma_le_u32_round_trip(v: u32)
    ensures
        le_u32(le_bytes(v), 0) == v,
{
    let b = le_bytes(v);
    assert(((((v & 0xff) as u8) as u32) | (((((v >> 8u32) & 0xff) as u8) as u32) << 8u32)
        | (((((v >> 16u32) & 0xff) as u8) as u32) << 16u32) | (((((v >> 24u32) & 0xff) as u8) as u32) << 24u32)) == v)
        by (bit_vector);
}

/// A frame built by `build_frame_payload_with_max`, followed by any bytes,
/// is recognised by the scanner as exactly that frame, and scanning goes on
/// with the bytes after it as if they had come alone.
pub proof fn lemma_scan_built_frame(flags: u8, payload: Seq<u8>, rest: Seq<u8>, max: usize)
    requires
        payload.len() <= max,
        payload.len() <= u32::MAX,
    ensures
        ({
            let (events, kept) = spec_scan(rest, max);
            spec_scan(spec_frame_bytes(flags, payload) + rest, max) == (
                seq![EventView::Frame { version: SUPPORTED_VERSION, flags, payload }] + events,
                kept,
            )
        }),
{
    let frame = spec_frame_bytes(flags, payload);
    let buf = frame + rest;
    let n = payload.len() as u32;
    let crc = crc32::spec_crc32(payload);
    assert(buf.subrange(0, 4) =~= magic_seq());
    assert(magic_at(buf, 0));
    assert(spec_find_magic(buf) == Some(0int));
    assert(buf[4] == SUPPORTED_VERSION);
    assert(buf[5] == flags);
    lemma_le_u32_round_trip(n);
    lemma_le_u32_round_trip(crc);
    assert(buf.subrange(6, 10) =~= le_bytes(n));
    assert(le_u32(buf, 6) == le_u32(le_bytes(n), 0));
    assert(buf.subrange(10, 14) =~= le_bytes(crc));
    assert(le_u32(buf, 10) == le_u32(le_bytes(crc), 0));
    assert(n as int == payload.len());
    let total = HEADER_LEN + payload.len();
    assert(buf.subrange(HEADER_LEN as int, total) =~= payload);
    assert(buf.subrange(total, buf.len() as int) =~= rest);
}

/// Scanning nothing finds nothing and keeps nothing.
pub proof fn lemma_scan_empty(max: usize)
    ensures
        spec_scan(Seq::<u8>::empty(), max) == (Seq::<EventView>::empty(), Seq::<u8>::empty()),
{
    let empty = Seq::<u8>::empty();
    assert(spec_find_magic(empty) is None);
    assert(spec_magic_prefix_suffix_len(empty) == 0);
}

/// Merging a single event leaves it as it is.
pub proof fn lemma_merge_single(e: EventView)
    ensures
        merge_terminals(seq![e]) == seq![e],
{
    let one = seq![e];
    assert(one.drop_last() =~= Seq::<EventView>::empty());
    assert(one.last() == e);
    assert(merge_terminals(Seq::<EventView>::empty()) == Seq::<EventView>::empty());
    assert(merge_terminals(one) == push_merged(Seq::<EventView>::empty(), e));
    assert(Seq::<EventView>::empty().push(e) =~= one);
}

/// A whole frame fed to an empty scanner comes out as that frame and
/// nothing else, and nothing is held back.
pub proof fn lemma_scan_single_frame(flags: u8, payload: Seq<u8>, max: usize)
    requires
        payload.len() <= max,
        payload.len() <= u32::MAX,
    ensures
        spec_scan(spec_frame_bytes(flags, payload), max) == (
            seq![EventView::Frame { version: SUPPORTED_VERSION, flags, payload }],
            Seq::<u8>::empty(),
        ),
        merge_terminals(seq![EventView::Frame { version: SUPPORTED_VERSION, flags, payload }])
            == seq![EventView::Frame { version: SUPPORTED_VERSION, flags, payload }],
{
    let empty = Seq::<u8>::empty();
    let frame = spec_frame_bytes(flags, payload);
    let single = seq![EventView::Frame { version: SUPPORTED_VERSION, flags, payload }];
    lemma_scan_built_frame(flags, payload, empty, max);
    lemma_scan_empty(max);
    assert(frame + empty == frame) by {
        assert(frame + empty =~= frame);
    }
    assert(single + Seq::<EventView>::empty() == single) by {
        assert(single + Seq::<EventView>::empty() =~= single);
    }
    lemma_merge_single(EventView::Frame { version: SUPPORTED_VERSION, flags, payload });
}

proof fn lemma_no_magic_from(buf: Seq<u8>, i: int)
    requires
        forall|j: int| 0 <= j < buf.len() ==> buf[j] != 0x45u8,
    ensures
        find_magic_from(buf, i) is None,
    decreases buf.len() - i,
{
    if !(i < 0 || i + 4 > buf.len()) {
        assert(buf.subrange(i, i + 4)[0] == buf[i]);
        assert(magic_seq()[0] == 0x45u8);
        assert(!magic_at(buf, i));
        lemma_no_magic_from(buf, i + 1);
    }
}

proof fn lemma_no_magic_suffix(buf: Seq<u8>, n: int)
    requires
        forall|j: int| 0 <= j < buf.len() ==> buf[j] != 0x45u8,
    ensures
        magic_suffix_from(buf, n) == 0,
    decreases n,
{
    if n > 0 {
        if 0 < n <= 4 && n <= buf.len() {
            assert(buf.subrange(buf.len() - n, buf.len() as int)[0] == buf[buf.len() - n]);
            assert(magic_seq().subrange(0, n)[0] == 0x45u8);
        }
        assert(!suffix_is_magic_prefix(buf, n));
        lemma_no_magic_suffix(buf, n - 1);
    }
}

/// Ordinary terminal bytes pass through: bytes in which no frame can
/// start (none is the magic's first byte) come out as they are, as one
/// terminal event, and nothing is held back.
pub proof fn lemma_plain_bytes_pass_through(buf: Seq<u8>, max: usize)
    requires
        buf.len() > 0,
        forall|j: int| 0 <= j < buf.len() ==> buf[j] != 0x45u8,
    ensures
        spec_scan(buf, max) == (seq![EventView::Terminal(buf)], Seq::<u8>::empty()),
{
    lemma_no_magic_from(buf, 0);
    lemma_no_magic_suffix(buf, if buf.len() < 3 { buf.len() as int } else { 3 });
    assert(buf.subrange(0, buf.len() as int) =~= buf);
    assert(buf.subrange(buf.len() as int, buf.len() as int) =~= Seq::<u8>::empty());
}

// ---------------------------------------------------------------------
// Scanning does not depend on how the stream was cut

proof fn lemma_merge_push(s: Seq<EventView>, e: EventView)
    ensures
        merge_terminals(s.push(e)) == push_merged(merge_terminals(s), e),
{
    assert(s.push(e).drop_last() =~= s);
}

proof fn lemma_push_merged_twice(q: Seq<EventView>, u: Seq<u8>, v: Seq<u8>)
    ensures
        push_merged(push_merged(q, EventView::Terminal(u)), EventView::Terminal(v))
            == push_merged(q, EventView::Terminal(u + v)),
{
    let t = push_merged(q, EventView::Terminal(u));
    if q.len() > 0 && q.last() is Terminal {
        let z = q.last()->Terminal_0;
        assert(t.last() == EventView::Terminal(z + u));
        assert(t.drop_last() =~= q.drop_last());
        assert(z + u + v =~= z + (u + v));
    } else {
        assert(t.last() == EventView::Terminal(u));
        assert(t.drop_last() =~= q);
    }
}

/// Merging after the events `a` depends only on the merged `a`.
proof fn lemma_merge_right_normal(p: Seq<EventView>, a: Seq<EventView>)
    ensures
        merge_terminals(p + a) == merge_terminals(p + merge_terminals(a)),
    decreases a.len(),
{
    if a.len() == 0 {
        assert(p + a =~= p);
        assert(p + merge_terminals(a) =~= p);
    } else {
        let a1 = a.drop_last();
        let e = a.last();
        lemma_merge_right_normal(p, a1);
        assert(p + a =~= (p + a1).push(e));
        lemma_merge_push(p + a1, e);
        let m = merge_terminals(a1);
        assert(merge_terminals(a) == push_merged(m, e));
        if m.len() > 0 && m.last() is Terminal && e is Terminal {
            let l = m.last()->Terminal_0;
            let m1 = m.drop_last();
            assert(m =~= m1.push(EventView::Terminal(l)));
            assert(p + m =~= (p + m1).push(EventView::Terminal(l)));
            lemma_merge_push(p + m1, EventView::Terminal(l));
            lemma_push_merged_twice(merge_terminals(p + m1), l, e->Terminal_0);
            assert(p + push_merged(m, e) =~= (p + m1).push(EventView::Terminal(l + e->Terminal_0)));
            lemma_merge_push(p + m1, EventView::Terminal(l + e->Terminal_0));
        } else {
            assert(p + push_merged(m, e) =~= (p + m).push(e));
            lemma_merge_push(p + m, e);
        }
    }
}

/// Events that merge alike still merge alike after the same prefix.
proof fn lemma_merge_prefix(p: Seq<EventView>, a: Seq<EventView>, b: Seq<EventView>)
    requires
        merge_terminals(a) == merge_terminals(b),
    ensures
        merge_terminals(p + a) == merge_terminals(p + b),
{
    lemma_merge_right_normal(p, a);
    lemma_merge_right_normal(p, b);
}

/// Two adjacent terminal events merge as one.
proof fn lemma_merge_join(u: Seq<u8>, v: Seq<u8>, r: Seq<EventView>)
    ensures
        merge_terminals(seq![EventView::Terminal(u), EventView::Terminal(v)] + r)
            == merge_terminals(seq![EventView::Terminal(u + v)] + r),
    decreases r.len(),
{
    let two = seq![EventView::Terminal(u), EventView::Terminal(v)];
    let one = seq![EventView::Terminal(u + v)];
    if r.len() == 0 {
        assert(two + r =~= Seq::<EventView>::empty().push(EventView::Terminal(u)).push(EventView::Terminal(v)));
        assert(one + r =~= Seq::<EventView>::empty().push(EventView::Terminal(u + v)));
        lemma_merge_push(Seq::<EventView>::empty().push(EventView::Terminal(u)), EventView::Terminal(v));
        lemma_merge_push(Seq::<EventView>::empty(), EventView::Terminal(u));
        lemma_merge_push(Seq::<EventView>::empty(), EventView::Terminal(u + v));
        lemma_push_merged_twice(Seq::<EventView>::empty(), u, v);
    } else {
        let r1 = r.drop_last();
        lemma_merge_join(u, v, r1);
        assert(two + r =~= (two + r1).push(r.last()));
        assert(one + r =~= (one + r1).push(r.last()));
        lemma_merge_push(two + r1, r.last());
        lemma_merge_push(one + r1, r.last());
    }
}

/// The magic search finds the first magic at or after `i`.
proof fn lemma_find_magic_exact(buf: Seq<u8>, i: int, p: int)
    requires
        0 <= i <= p,
        magic_at(buf, p),
        forall|j: int| i <= j < p ==> !magic_at(buf, j),
    ensures
        find_magic_from(buf, i) == Some(p),
    decreases p - i,
{
    if i < p {
        assert(!magic_at(buf, i));
        lemma_find_magic_exact(buf, i + 1, p);
    }
}

/// With no magic at or after `i`, the search finds none.
proof fn lemma_find_magic_none(buf: Seq<u8>, i: int)
    requires
        0 <= i,
        forall|j: int| i <= j ==> !magic_at(buf, j),
    ensures
        find_magic_from(buf, i) is None,
    decreases buf.len() - i,
{
    if !(i + 4 > buf.len()) {
        assert(!magic_at(buf, i));
        lemma_find_magic_none(buf, i + 1);
    }
}

/// Before the first magic there is none.
proof fn lemma_find_magic_first(buf: Seq<u8>, i: int)
    ensures
        find_magic_from(buf, i) matches Some(p) ==> forall|j: int| i <= j < p ==> !magic_at(buf, j),
    decreases buf.len() - i,
{
    if !(i < 0 || i + 4 > buf.len()) && !magic_at(buf, i) {
        lemma_find_magic_first(buf, i + 1);
    }
}

/// A magic prefix at the end of `buf` no longer than `n` is at most as
/// long as the one that is kept.
proof fn lemma_suffix_at_most(buf: Seq<u8>, l: int, n: int)
    requires
        suffix_is_magic_prefix(buf, l),
        l <= n,
    ensures
        magic_suffix_from(buf, n) >= l,
    decreases n,
{
    if n > l && !suffix_is_magic_prefix(buf, n) {
        lemma_suffix_at_most(buf, l, n - 1);
    }
}

/// Past `m`, no magic prefix ends `buf`: the longest one up to `n` is the
/// longest one up to `m`.
proof fn lemma_suffix_skip(buf: Seq<u8>, m: int, n: int)
    requires
        0 <= m <= n,
        forall|l: int| m < l <= n ==> !#[trigger] suffix_is_magic_prefix(buf, l),
    ensures
        magic_suffix_from(buf, n) == magic_suffix_from(buf, m),
    decreases n,
{
    if n > m {
        assert(!suffix_is_magic_prefix(buf, n));
        lemma_suffix_skip(buf, m, n - 1);
    }
}

/// Buffers that end alike keep alike.
proof fn lemma_suffix_same(b1: Seq<u8>, b2: Seq<u8>, m: int)
    requires
        forall|l: int| 0 < l <= m ==> #[trigger] suffix_is_magic_prefix(b1, l) == suffix_is_magic_prefix(b2, l),
    ensures
        magic_suffix_from(b1, m) == magic_suffix_from(b2, m),
    decreases m,
{
    if m > 0 {
        assert(suffix_is_magic_prefix(b1, m) == suffix_is_magic_prefix(b2, m));
        lemma_suffix_same(b1, b2, m - 1);
    }
}

/// In bytes with no frame start, none starts in the part that scanning
/// lets through, whatever follows.
proof fn lemma_plain_before(x: Seq<u8>, b: Seq<u8>)
    requires
        spec_find_magic(x) is None,
    ensures
        forall|j: int| 0 <= j < x.len() - spec_magic_prefix_suffix_len(x) ==> !#[trigger] magic_at(x + b, j),
{
    let xb = x + b;
    let n = if x.len() < 3 { x.len() as int } else { 3 };
    lemma_magic_suffix_from(x, n);
    let emit = x.len() - spec_magic_prefix_suffix_len(x);
    lemma_find_magic_from(x, 0);
    assert forall|j: int| 0 <= j < emit implies !#[trigger] magic_at(xb, j) by {
        if magic_at(xb, j) {
            if j + 4 <= x.len() {
                assert(xb.subrange(j, j + 4) =~= x.subrange(j, j + 4));
                assert(magic_at(x, j));
            } else {
                let l = x.len() - j;
                assert(x.subrange(j, x.len() as int) =~= xb.subrange(j, j + 4).subrange(0, l));
                assert(x.subrange(x.len() - l, x.len() as int) =~= x.subrange(j, x.len() as int));
                assert(magic_seq().subrange(0, 4).subrange(0, l) =~= magic_seq().subrange(0, l));
                assert(suffix_is_magic_prefix(x, l));
                lemma_suffix_at_most(x, l, n);
            }
        }
    }
}

/// A magic at or after `s` is one in the bytes from `s` on.
proof fn lemma_shift_magic(buf: Seq<u8>, s: int)
    requires
        0 <= s <= buf.len(),
    ensures
        forall|j: int| s <= j ==> #[trigger] magic_at(buf, j) == magic_at(buf.subrange(s, buf.len() as int), j - s),
{
    let t = buf.subrange(s, buf.len() as int);
    assert forall|j: int| s <= j implies #[trigger] magic_at(buf, j) == magic_at(t, j - s) by {
        if j + 4 <= buf.len() {
            assert(t.subrange(j - s, j - s + 4) =~= buf.subrange(j, j + 4));
        }
    }
}

/// The plain case when a frame starts further on.
proof fn lemma_scan_split_plain_frame(x: Seq<u8>, b: Seq<u8>, max: usize, emit: int, q: int)
    requires
        spec_find_magic(x) is None,
        emit == x.len() - spec_magic_prefix_suffix_len(x),
        emit > 0,
        spec_find_magic(x + b) == Some(q),
    ensures
        ({
            let (e1, k1) = spec_scan(x, max);
            let (e2, k2) = spec_scan(k1 + b, max);
            let (e, k) = spec_scan(x + b, max);
            merge_terminals(e1 + e2) == merge_terminals(e) && k2 == k
        }),
{
    let xb = x + b;
    let big_l = xb.len() as int;
    lemma_magic_suffix_from(x, if x.len() < 3 { x.len() as int } else { 3 });
    let x0 = x.subrange(0, emit);
    let k1 = x.subrange(emit, x.len() as int);
    let kb = k1 + b;
    let lk = kb.len() as int;
    assert(spec_scan(x, max) == (seq![EventView::Terminal(x0)], k1));
    assert(kb =~= xb.subrange(emit, big_l));
    lemma_plain_before(x, b);
    lemma_shift_magic(xb, emit);
    lemma_find_magic_from(xb, 0);
    lemma_find_magic_first(xb, 0);
    assert(q >= emit) by {
        if q < emit {
            assert(!magic_at(xb, q));
        }
    }
    assert(magic_at(kb, q - emit)) by {
        assert(magic_at(xb, q));
    }
    assert forall|j: int| 0 <= j < q - emit implies !magic_at(kb, j) by {
        assert(!magic_at(xb, j + emit));
        assert(magic_at(xb, j + emit) == magic_at(kb, j + emit - emit));
    }
    lemma_find_magic_exact(kb, 0, q - emit);
    assert(xb.subrange(q, big_l) =~= kb.subrange(q - emit, lk));
    let r = spec_scan(xb.subrange(q, big_l), max);
    if q == emit {
        assert(xb.subrange(0, q) =~= x0);
        assert(spec_scan(xb, max) == (seq![EventView::Terminal(x0)] + spec_scan(kb, max).0, spec_scan(kb, max).1));
    } else {
        let y = kb.subrange(0, q - emit);
        assert(spec_scan(xb, max) == (seq![EventView::Terminal(xb.subrange(0, q))] + r.0, r.1));
        assert(spec_scan(kb, max) == (seq![EventView::Terminal(y)] + r.0, r.1));
        assert(seq![EventView::Terminal(x0)] + (seq![EventView::Terminal(y)] + r.0)
            =~= seq![EventView::Terminal(x0), EventView::Terminal(y)] + r.0);
        lemma_merge_join(x0, y, r.0);
        assert(x0 + y =~= xb.subrange(0, q));
    }
}

/// Cutting off bytes before the last three that end no magic prefix
/// changes nothing at the end: the kept tail is the same.
proof fn lemma_plain_keep_same(x: Seq<u8>, b: Seq<u8>, emit: int)
    requires
        spec_find_magic(x) is None,
        emit == x.len() - spec_magic_prefix_suffix_len(x),
        emit > 0,
    ensures
        spec_magic_prefix_suffix_len(x + b)
            == spec_magic_prefix_suffix_len(x.subrange(emit, x.len() as int) + b),
        0 <= spec_magic_prefix_suffix_len(x + b) <= (x.subrange(emit, x.len() as int) + b).len(),
{
    let xb = x + b;
    let big_l = xb.len() as int;
    let n = if x.len() < 3 { x.len() as int } else { 3 };
    lemma_magic_suffix_from(x, n);
    let kb = x.subrange(emit, x.len() as int) + b;
    let lk = kb.len() as int;
    assert(kb =~= xb.subrange(emit, big_l));
    let n1 = if big_l < 3 { big_l } else { 3 };
    let n2 = if lk < 3 { lk } else { 3 };
    assert forall|l: int| n2 < l <= n1 implies !#[trigger] suffix_is_magic_prefix(xb, l) by {
        if suffix_is_magic_prefix(xb, l) {
            let j = big_l - l;
            let l2 = x.len() - j;
            assert(x.subrange(j, x.len() as int) =~= xb.subrange(j, big_l).subrange(0, l2));
            assert(magic_seq().subrange(0, l).subrange(0, l2) =~= magic_seq().subrange(0, l2));
            assert(x.subrange(x.len() - l2, x.len() as int) =~= x.subrange(j, x.len() as int));
            assert(suffix_is_magic_prefix(x, l2));
            lemma_suffix_at_most(x, l2, n);
        }
    }
    lemma_suffix_skip(xb, n2, n1);
    assert forall|l: int| 0 < l <= n2 implies #[trigger] suffix_is_magic_prefix(xb, l) == suffix_is_magic_prefix(kb, l) by {
        assert(xb.subrange(big_l - l, big_l) =~= kb.subrange(lk - l, lk));
    }
    lemma_suffix_same(xb, kb, n2);
    lemma_magic_suffix_from(kb, n2);
}

/// The plain case when no frame starts at all.
proof fn lemma_scan_split_plain_none(x: Seq<u8>, b: Seq<u8>, max: usize, emit: int)
    requires
        spec_find_magic(x) is None,
        emit == x.len() - spec_magic_prefix_suffix_len(x),
        emit > 0,
        spec_find_magic(x + b) is None,
    ensures
        ({
            let (e1, k1) = spec_scan(x, max);
            let (e2, k2) = spec_scan(k1 + b, max);
            let (e, k) = spec_scan(x + b, max);
            merge_terminals(e1 + e2) == merge_terminals(e) && k2 == k
        }),
{
    let xb = x + b;
    let big_l = xb.len() as int;
    let n = if x.len() < 3 { x.len() as int } else { 3 };
    lemma_magic_suffix_from(x, n);
    let x0 = x.subrange(0, emit);
    let k1 = x.subrange(emit, x.len() as int);
    let kb = k1 + b;
    let lk = kb.len() as int;
    assert(spec_scan(x, max) == (seq![EventView::Terminal(x0)], k1));
    assert(kb =~= xb.subrange(emit, big_l));
    lemma_shift_magic(xb, emit);
    lemma_find_magic_from(xb, 0);
    assert forall|j: int| 0 <= j implies !magic_at(kb, j) by {
        assert(!magic_at(xb, j + emit));
        assert(magic_at(xb, j + emit) == magic_at(kb, j + emit - emit));
    }
    lemma_find_magic_none(kb, 0);
    lemma_plain_keep_same(x, b, emit);
    let keep2 = spec_magic_prefix_suffix_len(kb);
    let emit2 = lk - keep2;
    let emit1 = big_l - keep2;
    assert(spec_scan(xb, max) == (seq![EventView::Terminal(xb.subrange(0, emit1))], xb.subrange(emit1, big_l)));
    assert(kb.subrange(emit2, lk) =~= xb.subrange(emit1, big_l));
    if emit2 > 0 {
        let y = kb.subrange(0, emit2);
        assert(spec_scan(kb, max) == (seq![EventView::Terminal(y)], kb.subrange(emit2, lk)));
        assert(seq![EventView::Terminal(x0)] + seq![EventView::Terminal(y)]
            =~= seq![EventView::Terminal(x0), EventView::Terminal(y)] + Seq::<EventView>::empty());
        lemma_merge_join(x0, y, Seq::<EventView>::empty());
        assert(x0 + y =~= xb.subrange(0, emit1));
        assert(seq![EventView::Terminal(x0 + y)] + Seq::<EventView>::empty() =~= seq![EventView::Terminal(xb.subrange(0, emit1))]);
    } else {
        assert(spec_scan(kb, max) == (Seq::<EventView>::empty(), kb));
        assert(xb.subrange(0, emit1) =~= x0);
        assert(seq![EventView::Terminal(x0)] + Seq::<EventView>::empty() =~= seq![EventView::Terminal(x0)]);
    }
}

/// Scanning a stream cut after bytes `x` in which no frame starts.
proof fn lemma_scan_split_plain(x: Seq<u8>, b: Seq<u8>, max: usize)
    requires
        spec_find_magic(x) is None,
    ensures
        ({
            let (e1, k1) = spec_scan(x, max);
            let (e2, k2) = spec_scan(k1 + b, max);
            let (e, k) = spec_scan(x + b, max);
            merge_terminals(e1 + e2) == merge_terminals(e) && k2 == k
        }),
{
    let n = if x.len() < 3 { x.len() as int } else { 3 };
    lemma_magic_suffix_from(x, n);
    let emit = x.len() - spec_magic_prefix_suffix_len(x);
    if emit <= 0 {
        assert(spec_scan(x, max) == (Seq::<EventView>::empty(), x));
        assert(Seq::<EventView>::empty() + spec_scan(x + b, max).0 =~= spec_scan(x + b, max).0);
    } else {
        match spec_find_magic(x + b) {
            Some(q) => lemma_scan_split_plain_frame(x, b, max, emit, q),
            None => lemma_scan_split_plain_none(x, b, max, emit),
        }
    }
}


/// Merging is the same whether the events in front were merged first.
proof fn lemma_merge_left_normal(a: Seq<EventView>, q: Seq<EventView>)
    ensures
        merge_terminals(merge_terminals(a) + q) == merge_terminals(a + q),
    decreases q.len(),
{
    if q.len() == 0 {
        assert(merge_terminals(a) + q =~= merge_terminals(a));
        assert(a + q =~= a);
        lemma_merge_right_normal(Seq::<EventView>::empty(), a);
        assert(Seq::<EventView>::empty() + a =~= a);
        assert(Seq::<EventView>::empty() + merge_terminals(a) =~= merge_terminals(a));
    } else {
        let q1 = q.drop_last();
        lemma_merge_left_normal(a, q1);
        assert(merge_terminals(a) + q =~= (merge_terminals(a) + q1).push(q.last()));
        assert(a + q =~= (a + q1).push(q.last()));
        lemma_merge_push(merge_terminals(a) + q1, q.last());
        lemma_merge_push(a + q1, q.last());
    }
}

/// The step shared by the cases where scanning emits `ev` and goes on
/// after the first `s` bytes, for the stream alone and with `b` behind it.
proof fn lemma_scan_split_step(x: Seq<u8>, b: Seq<u8>, max: usize, s: int, ev: EventView)
    requires
        0 < s <= x.len(),
        ({
            let r = spec_scan(x.subrange(s, x.len() as int), max);
            spec_scan(x, max) == (seq![ev] + r.0, r.1)
        }),
        ({
            let r = spec_scan(x.subrange(s, x.len() as int) + b, max);
            spec_scan(x + b, max) == (seq![ev] + r.0, r.1)
        }),
        ({
            let x1 = x.subrange(s, x.len() as int);
            let (e1, k1) = spec_scan(x1, max);
            let (e2, k2) = spec_scan(k1 + b, max);
            let (e, k) = spec_scan(x1 + b, max);
            merge_terminals(e1 + e2) == merge_terminals(e) && k2 == k
        }),
    ensures
        ({
            let (e1, k1) = spec_scan(x, max);
            let (e2, k2) = spec_scan(k1 + b, max);
            let (e, k) = spec_scan(x + b, max);
            merge_terminals(e1 + e2) == merge_terminals(e) && k2 == k
        }),
{
    let x1 = x.subrange(s, x.len() as int);
    let r1 = spec_scan(x1, max);
    let r2 = spec_scan(r1.1 + b, max);
    let r = spec_scan(x1 + b, max);
    assert((seq![ev] + r1.0) + r2.0 =~= seq![ev] + (r1.0 + r2.0));
    lemma_merge_prefix(seq![ev], r1.0 + r2.0, r.0);
}

/// Scanning does not depend on how the stream is cut: scanning `x`, then
/// what it kept followed by `b`, finds (once adjacent terminal output is
/// merged) the same events as scanning `x + b` at once, and keeps the same
/// bytes. So feeding the scanner in pieces gives what feeding it whole does.
pub proof fn lemma_scan_split(x: Seq<u8>, b: Seq<u8>, max: usize)
    ensures
        ({
            let (e1, k1) = spec_scan(x, max);
            let (e2, k2) = spec_scan(k1 + b, max);
            let (e, k) = spec_scan(x + b, max);
            &&& merge_terminals(e1 + e2) == merge_terminals(e)
            &&& merge_terminals(merge_terminals(e1) + merge_terminals(e2)) == merge_terminals(e)
            &&& k2 == k
        }),
    decreases x.len(),
{
    let xb = x + b;
    lemma_find_magic_from(x, 0);
    match spec_find_magic(x) {
        None => {
            lemma_scan_split_plain(x, b, max);
        },
        Some(p) => {
            assert(magic_at(xb, p)) by {
                assert(xb.subrange(p, p + 4) =~= x.subrange(p, p + 4));
            }
            lemma_find_magic_first(x, 0);
            assert forall|j: int| 0 <= j < p implies !magic_at(xb, j) by {
                assert(xb.subrange(j, j + 4) =~= x.subrange(j, j + 4));
                assert(!magic_at(x, j));
            }
            lemma_find_magic_exact(xb, 0, p);
            if p > 0 {
                let x1 = x.subrange(p, x.len() as int);
                assert(xb.subrange(p, xb.len() as int) =~= x1 + b);
                assert(xb.subrange(0, p) =~= x.subrange(0, p));
                lemma_scan_split(x1, b, max);
                lemma_scan_split_step(x, b, max, p, EventView::Terminal(x.subrange(0, p)));
            } else if x.len() < HEADER_LEN {
                assert(Seq::<EventView>::empty() + spec_scan(xb, max).0 =~= spec_scan(xb, max).0);
            } else {
                assert(xb[4] == x[4]);
                assert(xb[6] == x[6] && xb[7] == x[7] && xb[8] == x[8] && xb[9] == x[9]);
                assert(le_u32(xb, 6) == le_u32(x, 6));
                if x[4] != SUPPORTED_VERSION || le_u32(x, 6) > max {
                    let x1 = x.subrange(1, x.len() as int);
                    assert(xb.subrange(1, xb.len() as int) =~= x1 + b);
                    assert(xb.subrange(0, 1) =~= x.subrange(0, 1));
                    lemma_scan_split(x1, b, max);
                    lemma_scan_split_step(x, b, max, 1, EventView::Terminal(x.subrange(0, 1)));
                } else {
                    let total = HEADER_LEN + le_u32(x, 6) as int;
                    if x.len() < total {
                        assert(Seq::<EventView>::empty() + spec_scan(xb, max).0 =~= spec_scan(xb, max).0);
                    } else {
                        assert(xb[5] == x[5]);
                        assert(xb[10] == x[10] && xb[11] == x[11] && xb[12] == x[12] && xb[13] == x[13]);
                        assert(le_u32(xb, 10) == le_u32(x, 10));
                        assert(xb.subrange(HEADER_LEN as int, total) =~= x.subrange(HEADER_LEN as int, total));
                        let x1 = x.subrange(total, x.len() as int);
                        assert(xb.subrange(total, xb.len() as int) =~= x1 + b);
                        lemma_scan_split(x1, b, max);
                        let payload = x.subrange(HEADER_LEN as int, total);
                        let expected = le_u32(x, 10);
                        let actual = crc32::spec_crc32(payload);
                        let ev = if actual != expected {
                            EventView::FrameError(FrameError::CrcMismatch {
                                version: x[4],
                                flags: x[5],
                                payload_len: (total - HEADER_LEN) as usize,
                                expected_crc: expected,
                                actual_crc: actual,
                            })
                        } else {
                            EventView::Frame { version: x[4], flags: x[5], payload }
                        };
                        lemma_scan_split_step(x, b, max, total, ev);
                    }
                }
            }
        },
    }
    let (e1, k1) = spec_scan(x, max);
    let (e2, k2) = spec_scan(k1 + b, max);
    lemma_merge_left_normal(e1, merge_terminals(e2));
    lemma_merge_right_normal(e1, e2);
}

/// Feeding the chunks one push after another to a scanner that holds
/// `pending`: the events of each push (merged, as `push` returns them), in
/// order, and what is kept at the end.
pub open spec fn feed_chunks(pending: Seq<u8>, chunks: Seq<Seq<u8>>, max: usize) -> (Seq<EventView>, Seq<u8>)
    decreases chunks.len(),
{
    if chunks.len() == 0 {
        (Seq::empty(), pending)
    } else {
        let (found, kept) = spec_scan(pending + chunks[0], max);
        let (rest, last) = feed_chunks(kept, chunks.drop_first(), max);
        (merge_terminals(found) + rest, last)
    }
}

/// The chunks joined into one stream.
pub open spec fn join_chunks(chunks: Seq<Seq<u8>>) -> Seq<u8>
    decreases chunks.len(),
{
    if chunks.len() == 0 {
        Seq::empty()
    } else {
        chunks[0] + join_chunks(chunks.drop_first())
    }
}

/// Events that merge alike still merge alike with the same events behind.
proof fn lemma_merge_suffix(a: Seq<EventView>, b: Seq<EventView>, q: Seq<EventView>)
    requires
        merge_terminals(a) == merge_terminals(b),
    ensures
        merge_terminals(a + q) == merge_terminals(b + q),
{
    lemma_merge_left_normal(a, q);
    lemma_merge_left_normal(b, q);
}

/// Scanning `x`, then feeding the chunks to what it kept, finds what
/// scanning `x` and all the chunks at once finds.
proof fn lemma_feed_chunks_after(x: Seq<u8>, chunks: Seq<Seq<u8>>, max: usize)
    ensures
        ({
            let (e1, k1) = spec_scan(x, max);
            let (rest, last) = feed_chunks(k1, chunks, max);
            let (e, k) = spec_scan(x + join_chunks(chunks), max);
            merge_terminals(e1 + rest) == merge_terminals(e) && last == k
        }),
    decreases chunks.len(),
{
    let (e1, k1) = spec_scan(x, max);
    if chunks.len() == 0 {
        assert(x + join_chunks(chunks) =~= x);
        assert(e1 + Seq::<EventView>::empty() =~= e1);
    } else {
        let c = chunks[0];
        let cs = chunks.drop_first();
        let (e2, k2) = spec_scan(k1 + c, max);
        let (rest2, last2) = feed_chunks(k2, cs, max);
        lemma_scan_split(x, c, max);
        lemma_feed_chunks_after(x + c, cs, max);
        let (s, sk) = spec_scan(x + c, max);
        assert(sk == k2);
        assert(x + join_chunks(chunks) =~= (x + c) + join_chunks(cs));
        // e1 + (merge(e2) + rest2) merges as (e1 + e2) + rest2, which merges
        // as s + rest2.
        assert(e1 + (merge_terminals(e2) + rest2) =~= (e1 + merge_terminals(e2)) + rest2);
        lemma_merge_right_normal(e1, e2);
        assert(merge_terminals(e1 + merge_terminals(e2)) == merge_terminals(e1 + e2));
        lemma_merge_suffix(e1 + merge_terminals(e2), e1 + e2, rest2);
        lemma_merge_suffix(e1 + e2, s, rest2);
    }
}

/// Scanning does not depend on how the stream is cut into pushes: pushing
/// the chunks one after another into a new scanner returns, once adjacent
/// terminal output is merged, the events that pushing them all at once
/// returns, and keeps the same bytes, so `finish` then gives the same too.
pub proof fn lemma_feed_chunks(chunks: Seq<Seq<u8>>, max: usize)
    ensures
        ({
            let (events, kept) = feed_chunks(Seq::<u8>::empty(), chunks, max);
            let (found, rest) = spec_scan(Seq::<u8>::empty() + join_chunks(chunks), max);
            &&& merge_terminals(events) == merge_terminals(merge_terminals(found))
            &&& kept == rest
        }),
{
    lemma_scan_empty(max);
    lemma_feed_chunks_after(Seq::<u8>::empty(), chunks, max);
    let (events, kept) = feed_chunks(Seq::<u8>::empty(), chunks, max);
    let (found, rest) = spec_scan(Seq::<u8>::empty() + join_chunks(chunks), max);
    assert(Seq::<u8>::empty() + join_chunks(chunks) =~= join_chunks(chunks));
    assert(Seq::<EventView>::empty() + events =~= events);
    lemma_merge_right_normal(Seq::<EventView>::empty(), found);
    assert(Seq::<EventView>::empty() + found =~= found);
    assert(Seq::<EventView>::empty() + merge_terminals(found) =~= merge_terminals(found));
}

} // verus!
