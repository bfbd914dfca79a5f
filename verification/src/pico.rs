//! The wire protocol of the Pico.
//!
//! The stream mixes two kinds of things:
//! - a frame of three bytes: the sync byte `0xA0 | range`, then the 12-bit ADC count, its low
//!   byte first and its high nibble after it;
//! - a status line, which starts with `#` and ends with a line feed.
//!
//! Whatever is neither is dropped byte by byte until something fits again. A status line waits
//! for its end; a frame does not: if the bytes end within one, its sync byte is dropped.

use crate::samples::{newest, SharedSamples};
use crate::text::{
    from_utf8, is_white_space, trim, trimmed, trimming_cuts_white_space_alone,
};
use vstd::arithmetic::power::pow;
use vstd::prelude::*;
use vstd::string::*;
use vstd::utf8::{decode_utf8, valid_utf8};

verus! {

/// `#`, with which a status line starts.
pub const HASH: u8 = 0x23;

/// The line feed that ends a status line.
pub const LINE_FEED: u8 = 0x0A;

/// What one frame carries: the index of the measuring range and the ADC count.
#[derive(Clone, Copy, Debug, PartialEq, Eq, Structural)]
pub struct Reading {
    pub range: u8,
    pub adc: u16,
}

impl Reading {
    /// The range fits in four bits and the count in twelve.
    pub open spec fn in_range(self) -> bool {
        self.range < 16 && self.adc < 4096
    }
}

/// A sync byte: `0xA` in the high nibble.
pub open spec fn is_sync(b: u8) -> bool {
    b / 16 == 10
}

/// A frame stands at the start of `s`.
pub open spec fn starts_frame(s: Seq<u8>) -> bool {
    s.len() >= 3 && is_sync(s[0]) && s[2] < 16
}

/// What the frame at the start of `s` carries.
pub open spec fn frame_reading(s: Seq<u8>) -> Reading {
    Reading { range: s[0] % 16, adc: (s[1] + 256 * s[2]) as u16 }
}

/// How many bytes stand before the first line feed of `s`; all of them where there is none.
pub open spec fn line_len(s: Seq<u8>) -> nat
    decreases s.len(),
{
    if s.len() == 0 || s[0] == LINE_FEED {
        0
    } else {
        1 + line_len(s.skip(1))
    }
}

/// What stands at the start of a stream.
pub enum Piece {
    /// A status line, up to its line feed.
    Line,
    /// A status line whose end has not come yet.
    OpenLine,
    /// A frame.
    Frame,
    /// A byte that starts neither.
    Noise,
}

/// What stands at the start of `s`.
pub open spec fn first_piece(s: Seq<u8>) -> Piece
    recommends
        s.len() > 0,
{
    if s[0] == HASH {
        if line_len(s) < s.len() {
            Piece::Line
        } else {
            Piece::OpenLine
        }
    } else if starts_frame(s) {
        Piece::Frame
    } else {
        Piece::Noise
    }
}

/// What a stretch of the stream yields: the readings and the status lines, each in the order
/// of the stream, and the bytes that have to wait for more.
#[verifier::ext_equal]
pub struct Scan {
    pub readings: Seq<Reading>,
    pub lines: Seq<Seq<u8>>,
    pub rest: Seq<u8>,
}

impl Scan {
    /// Nothing but bytes that wait.
    pub open spec fn waiting(rest: Seq<u8>) -> Scan {
        Scan { readings: Seq::empty(), lines: Seq::empty(), rest }
    }

    /// What this scan yields, followed by what `later` does.
    pub open spec fn followed_by(self, later: Scan) -> Scan {
        Scan {
            readings: self.readings + later.readings,
            lines: self.lines + later.lines,
            rest: later.rest,
        }
    }
}

/// What the bytes `s` yield.
pub open spec fn scan(s: Seq<u8>) -> Scan
    decreases s.len(),
{
    if s.len() == 0 {
        Scan::waiting(s)
    } else {
        match first_piece(s) {
            Piece::OpenLine => Scan::waiting(s),
            Piece::Line => {
                let later = scan(s.skip(line_len(s) as int + 1));
                Scan { lines: seq![s.take(line_len(s) as int)] + later.lines, ..later }
            },
            Piece::Frame => {
                let later = scan(s.skip(3));
                Scan { readings: seq![frame_reading(s)] + later.readings, ..later }
            },
            Piece::Noise => scan(s.skip(1)),
        }
    }
}

/// The text of a status line: empty where the bytes are not UTF-8, and without white space at
/// its ends.
pub open spec fn line_text(line: Seq<u8>) -> Seq<char> {
    if valid_utf8(line) {
        trimmed(decode_utf8(line))
    } else {
        Seq::empty()
    }
}

/// The text of a status line.
pub fn status_text(line: &[u8]) -> (res: String)
    ensures
        res@ == line_text(line@),
{
    match from_utf8(line) {
        Some(s) => String::from_str(trim(s)),
        None => String::new(),
    }
}

/// Where the first line feed of a stream stands, as `line_len` counts.
proof fn lemma_line_len(s: Seq<u8>, k: int)
    requires
        0 <= k <= s.len(),
        forall|j: int| 0 <= j < k ==> s[j] != LINE_FEED,
        k < s.len() ==> s[k] == LINE_FEED,
    ensures
        line_len(s) == k,
    decreases s.len(),
{
    if k > 0 {
        lemma_line_len(s.skip(1), k - 1);
    }
}

/// The line that `line_len` counts holds no line feed, and one follows it unless `s` ends.
proof fn lemma_line_len_meaning(s: Seq<u8>)
    ensures
        line_len(s) <= s.len(),
        forall|j: int| 0 <= j < line_len(s) ==> s[j] != LINE_FEED,
        line_len(s) < s.len() ==> s[line_len(s) as int] == LINE_FEED,
    decreases s.len(),
{
    if s.len() > 0 && s[0] != LINE_FEED {
        let tail = s.skip(1);
        lemma_line_len_meaning(tail);
        assert forall|j: int| 0 <= j < line_len(s) implies s[j] != LINE_FEED by {
            if j > 0 {
                assert(tail[j - 1] != LINE_FEED);
            }
        }
    }
}

/// How far the line that starts at `start` reaches: the position of the next line feed, or the
/// end of `buf`.
fn find_line_end(buf: &Vec<u8>, start: usize) -> (end: usize)
    requires
        start <= buf.len(),
    ensures
        start <= end <= buf.len(),
        end - start == line_len(buf@.skip(start as int)),
{
    let mut end: usize = start;
    while end < buf.len() && buf[end] != LINE_FEED
        invariant
            start <= end <= buf.len(),
            forall|j: int| start <= j < end ==> buf[j] != LINE_FEED,
        decreases buf.len() - end,
    {
        end += 1;
    }
    proof {
        lemma_line_len(buf@.skip(start as int), end - start);
    }
    end
}

/// The readings and the texts of the status lines that one stretch of the stream yields.
pub struct Batch {
    pub readings: Vec<Reading>,
    pub lines: Vec<String>,
}

impl Batch {
    /// The batch holds what `found` yields, its lines as text.
    pub open spec fn holds(self, found: Scan) -> bool {
        &&& self.readings@ == found.readings
        &&& self.lines.len() == found.lines.len()
        &&& forall|i: int|
            0 <= i < found.lines.len() ==> (#[trigger] self.lines[i])@ == line_text(found.lines[i])
    }
}

/// Takes every complete piece from the front of `buf` and leaves the bytes that have to wait.
pub fn take_batch(buf: &mut Vec<u8>) -> (batch: Batch)
    ensures
        batch.holds(scan(old(buf)@)),
        final(buf)@ == scan(old(buf)@).rest,
{
    let ghost s = buf@;
    let ghost mut found = Scan::waiting(Seq::empty());
    let mut readings: Vec<Reading> = Vec::new();
    let mut lines: Vec<String> = Vec::new();
    let len: usize = buf.len();
    let mut i: usize = 0;
    assert(s.skip(0) == s);
    assert(found.followed_by(scan(s)) == scan(s));
    while i < len
        invariant_except_break
            i <= len,
        invariant
            buf@ == s,
            len == buf.len(),
            (Batch { readings, lines }).holds(found),
            found.followed_by(scan(s.skip(i as int))) == scan(s),
        ensures
            i <= len,
            scan(s.skip(i as int)) == Scan::waiting(s.skip(i as int)),
        decreases len - i,
    {
        let b0 = buf[i];
        let ghost t = s.skip(i as int);
        let ghost before = found;
        if b0 == HASH {
            let end: usize = find_line_end(buf, i);
            if end == len {
                break;
            }
            proof {
                found = Scan { lines: before.lines.push(t.take(line_len(t) as int)), ..before };
                assert(t.skip(line_len(t) as int + 1) == s.skip(end + 1));
                assert(s.subrange(i as int, end as int) == t.take(line_len(t) as int));
            }
            lines.push(status_text(&buf[i..end]));
            assert(found.followed_by(scan(s.skip(end + 1))) == before.followed_by(scan(t)));
            i = end + 1;
            continue;
        }
        let b2_fits = len - i >= 3 && buf[i + 2] & 0xF0 == 0;
        proof {
            assert((b0 & 0xF0 == 0xA0) == (b0 / 16 == 10) && b0 & 0x0F == b0 % 16) by (bit_vector);
            if t.len() >= 3 {
                let b2 = t[2];
                assert((b2 & 0xF0 == 0) == (b2 < 16)) by (bit_vector);
            }
            assert(t.skip(1) == s.skip(i + 1));
        }
        if b0 & 0xF0 == 0xA0 && b2_fits {
            let b1 = buf[i + 1];
            let b2 = buf[i + 2];
            assert((b1 as u16) | ((b2 as u16) << 8) == b1 + 256 * b2) by (bit_vector)
                requires
                    b2 < 16,
            ;
            proof {
                found = Scan { readings: before.readings.push(frame_reading(t)), ..before };
                assert(t.skip(3) == s.skip(i + 3));
            }
            readings.push(Reading { range: b0 & 0x0F, adc: (b1 as u16) | ((b2 as u16) << 8) });
            assert(found.followed_by(scan(s.skip(i + 3))) == before.followed_by(scan(t)));
            i += 3;
            continue;
        }
        i += 1;
    }
    let rest = buf.split_off(i);
    *buf = rest;
    assert(found.followed_by(Scan::waiting(s.skip(i as int))) == scan(s));
    Batch { readings, lines }
}

/// The feedback resistance of a measuring range, in ohms: a hundred more than a decade from a
/// thousand upwards. A range beyond the last has the resistance of the last.
pub open spec fn range_ohms(range: u8) -> int {
    100 + 1_000 * pow(
        10,
        if range < 3 {
            range as nat
        } else {
            3
        },
    )
}

/// The feedback resistance of a measuring range, in ohms.
pub fn gear_ohms(range: u8) -> (res: u32)
    ensures
        res == range_ohms(range),
{
    proof {
        reveal_with_fuel(pow, 4);
    }
    match range {
        0 => 1_100,
        1 => 10_100,
        2 => 100_100,
        _ => 1_000_100,
    }
}

/// What came of one read from the serial port.
pub enum ReadEvent {
    Bytes(Vec<u8>),
    TimedOut,
    Failed,
}

impl ReadEvent {
    /// The bytes that came.
    pub open spec fn bytes(self) -> Seq<u8> {
        match self {
            ReadEvent::Bytes(chunk) => chunk@,
            _ => Seq::empty(),
        }
    }
}

/// The reading end of the Pico's stream.
pub struct PicoSource {
    buf: Vec<u8>,
    emitted: u64,
}

impl PicoSource {
    /// The bytes that wait for more.
    pub closed spec fn waiting(&self) -> Seq<u8> {
        self.buf@
    }

    /// How many samples came, those of a pause included.
    pub closed spec fn emitted(&self) -> u64 {
        self.emitted
    }

    /// A source from which nothing has come.
    pub fn new() -> (res: Self)
        ensures
            res.waiting() == Seq::<u8>::empty(),
            res.emitted() == 0,
    {
        PicoSource { buf: Vec::with_capacity(16 * 1024), emitted: 0 }
    }

    /// How many samples came, those of a pause included.
    pub fn samples_emitted_count(&self) -> (res: u64)
        ensures
            res == self.emitted(),
    {
        self.emitted
    }

    /// Takes in what a read brought and gives what can be read from the stream now. A failed
    /// read ends the source: there is nothing to give then.
    pub fn on_read(&mut self, event: ReadEvent) -> (res: Option<Batch>)
        ensures
            res is None <==> event is Failed,
            event is Failed ==> final(self).waiting() == old(self).waiting(),
            res matches Some(batch) ==> {
                let found = scan(old(self).waiting() + event.bytes());
                &&& batch.holds(found)
                &&& final(self).waiting() == found.rest
            },
            final(self).emitted() == old(self).emitted(),
    {
        match event {
            ReadEvent::Failed => {
                return None;
            },
            ReadEvent::Bytes(mut chunk) => {
                self.buf.append(&mut chunk);
            },
            ReadEvent::TimedOut => {},
        }
        assert(self.buf@ == old(self).waiting() + event.bytes());
        Some(take_batch(&mut self.buf))
    }

    /// Counts the samples of a batch, and keeps them unless the scope is stopped.
    pub fn accept<T: Copy>(
        &mut self,
        buffer: &mut SharedSamples<T>,
        batch: &Vec<T>,
        running: bool,
    )
        requires
            old(buffer).wf(),
            old(self).emitted() + batch.len() <= u64::MAX,
        ensures
            final(buffer).wf(),
            final(buffer)@ == if running {
                newest(old(buffer)@ + batch@)
            } else {
                old(buffer)@
            },
            final(self).emitted() == old(self).emitted() + batch.len(),
            final(self).waiting() == old(self).waiting(),
    {
        if running {
            buffer.push_batch(batch);
        }
        self.emitted = self.emitted + batch.len() as u64;
    }
}

/// One thing that the Pico sends.
pub enum Item {
    Frame(Reading),
    /// A status line, with its `#` and without its line feed.
    Status(Seq<u8>),
}

impl Item {
    /// A reading is in range; a status line starts with `#` and is one line.
    pub open spec fn well_formed(self) -> bool {
        match self {
            Item::Frame(r) => r.in_range(),
            Item::Status(line) => {
                &&& line.len() > 0
                &&& line[0] == HASH
                &&& forall|j: int| 0 <= j < line.len() ==> line[j] != LINE_FEED
            },
        }
    }

    /// The bytes that stand for the item on the wire.
    pub open spec fn bytes(self) -> Seq<u8> {
        match self {
            Item::Frame(r) => seq![
                (0xA0 + r.range) as u8,
                (r.adc % 256) as u8,
                (r.adc / 256) as u8,
            ],
            Item::Status(line) => line.push(LINE_FEED),
        }
    }

    /// What the item alone yields.
    pub open spec fn scanned(self) -> Scan {
        match self {
            Item::Frame(r) => Scan { readings: seq![r], ..Scan::waiting(Seq::empty()) },
            Item::Status(line) => Scan { lines: seq![line], ..Scan::waiting(Seq::empty()) },
        }
    }
}

/// The bytes of all the items, one after the other.
pub open spec fn encode(items: Seq<Item>) -> Seq<u8>
    decreases items.len(),
{
    if items.len() == 0 {
        Seq::empty()
    } else {
        items.first().bytes() + encode(items.drop_first())
    }
}

/// What all the items yield, one after the other.
pub open spec fn scanned(items: Seq<Item>) -> Scan
    decreases items.len(),
{
    if items.len() == 0 {
        Scan::waiting(Seq::empty())
    } else {
        items.first().scanned().followed_by(scanned(items.drop_first()))
    }
}

/// Reading gives back what was sent: the items come out as they went in, frames as readings
/// and status lines as lines, and whatever follows them is read as if it stood alone.
pub proof fn reading_gives_back_what_was_sent(items: Seq<Item>, after: Seq<u8>)
    requires
        forall|i: int| 0 <= i < items.len() ==> (#[trigger] items[i]).well_formed(),
    ensures
        scan(encode(items) + after) == scanned(items).followed_by(scan(after)),
    decreases items.len(),
{
    if items.len() == 0 {
        assert(encode(items) + after == after);
        assert(scanned(items).followed_by(scan(after)) == scan(after));
    } else {
        let item = items.first();
        let later = items.drop_first();
        assert(items[0].well_formed());
        assert forall|i: int| 0 <= i < later.len() implies (#[trigger] later[i]).well_formed() by {
            assert(items[i + 1].well_formed());
        }
        let tail = encode(later) + after;
        let s = encode(items) + after;
        assert(s == item.bytes() + tail);
        reading_gives_back_what_was_sent(later, after);
        match item {
            Item::Frame(r) => {
                assert(s.skip(3) == tail);
                assert(frame_reading(s) == r);
            },
            Item::Status(line) => {
                lemma_line_len(s, line.len() as int);
                assert(s.skip(line.len() as int + 1) == tail);
                assert(s.take(line.len() as int) == line);
            },
        }
        assert(scan(s) == item.scanned().followed_by(scan(tail)));
        assert(scan(s) == scanned(items).followed_by(scan(after)));
    }
}

/// What has to wait is nothing, or a status line without its end; reading it again on its own
/// yields nothing and leaves it as it is.
pub proof fn only_open_lines_wait(s: Seq<u8>)
    ensures
        ({
            let rest = scan(s).rest;
            &&& rest.len() > 0 ==> rest[0] == HASH
            &&& forall|j: int| 0 <= j < rest.len() ==> rest[j] != LINE_FEED
            &&& scan(rest) == Scan::waiting(rest)
        }),
    decreases s.len(),
{
    lemma_line_len_meaning(s);
    if s.len() > 0 {
        match first_piece(s) {
            Piece::OpenLine => {},
            Piece::Line => only_open_lines_wait(s.skip(line_len(s) as int + 1)),
            Piece::Frame => only_open_lines_wait(s.skip(3)),
            Piece::Noise => only_open_lines_wait(s.skip(1)),
        }
    }
}

/// Every reading has a range of four bits and a count of twelve.
pub proof fn readings_are_in_range(s: Seq<u8>)
    ensures
        forall|i: int|
            0 <= i < scan(s).readings.len() ==> (#[trigger] scan(s).readings[i]).in_range(),
    decreases s.len(),
{
    lemma_line_len_meaning(s);
    if s.len() > 0 {
        match first_piece(s) {
            Piece::OpenLine => {},
            Piece::Line => {
                readings_are_in_range(s.skip(line_len(s) as int + 1));
                assert(scan(s).readings == scan(s.skip(line_len(s) as int + 1)).readings);
            },
            Piece::Frame => {
                let later = scan(s.skip(3)).readings;
                readings_are_in_range(s.skip(3));
                assert(scan(s).readings == seq![frame_reading(s)] + later);
                assert(frame_reading(s).in_range());
                assert(forall|i: int|
                    0 < i < scan(s).readings.len() ==> (#[trigger] scan(s).readings[i]) == later[i - 1]);
                assert(forall|i: int|
                    0 <= i < scan(s).readings.len() ==> (#[trigger] scan(s).readings[i]).in_range());
            },
            Piece::Noise => {
                readings_are_in_range(s.skip(1));
                assert(scan(s).readings == scan(s.skip(1)).readings);
            },
        }
    }
}

/// Bytes that are neither `#` nor a sync byte are dropped between pieces, line ends among them.
pub proof fn stray_bytes_are_dropped(stray: Seq<u8>, s: Seq<u8>)
    requires
        forall|j: int| 0 <= j < stray.len() ==> stray[j] != HASH && !is_sync(stray[j]),
    ensures
        scan(stray + s) == scan(s),
    decreases stray.len(),
{
    if stray.len() == 0 {
        assert(stray + s == s);
    } else {
        assert((stray + s).skip(1) == stray.drop_first() + s);
        stray_bytes_are_dropped(stray.drop_first(), s);
    }
}

/// No frame is broken off at the end of `s`: reading never meets a sync byte with fewer than
/// two bytes after it.
pub open spec fn ends_between_frames(s: Seq<u8>) -> bool
    decreases s.len(),
{
    s.len() == 0 || match first_piece(s) {
        Piece::OpenLine => true,
        Piece::Line => ends_between_frames(s.skip(line_len(s) as int + 1)),
        Piece::Frame => ends_between_frames(s.skip(3)),
        Piece::Noise => !(is_sync(s[0]) && s.len() < 3) && ends_between_frames(s.skip(1)),
    }
}

/// How the stream is cut into chunks makes no difference, as long as no cut breaks a frame:
/// reading `a`, and then `b` behind what had to wait, yields what reading both at once does.
pub proof fn cuts_make_no_difference(a: Seq<u8>, b: Seq<u8>)
    requires
        ends_between_frames(a),
    ensures
        scan(a + b) == scan(a).followed_by(scan(scan(a).rest + b)),
    decreases a.len(),
{
    lemma_line_len_meaning(a);
    let s = a + b;
    if a.len() == 0 {
        assert(s == b);
        assert(scan(a).rest + b == b);
    } else {
        match first_piece(a) {
            Piece::OpenLine => {},
            Piece::Line => {
                let k = line_len(a) as int;
                lemma_line_len(s, k);
                assert(s.skip(k + 1) == a.skip(k + 1) + b);
                assert(s.take(k) == a.take(k));
                cuts_make_no_difference(a.skip(k + 1), b);
            },
            Piece::Frame => {
                assert(s.skip(3) == a.skip(3) + b);
                cuts_make_no_difference(a.skip(3), b);
            },
            Piece::Noise => {
                assert(s.skip(1) == a.skip(1) + b);
                cuts_make_no_difference(a.skip(1), b);
            },
        }
    }
    assert(scan(s) == scan(a).followed_by(scan(scan(a).rest + b)));
}

/// A byte from `0xA0` to `0xAF` with two after it, of which the second is below 16, is a frame:
/// its reading comes first, with the low four bits of the first byte as the range and the other
/// two bytes, the low one first, as the count. Then comes what stands behind it.
pub proof fn frames_are_read(s: Seq<u8>)
    requires
        s.len() >= 3,
        0xA0 <= s[0] <= 0xAF,
        s[2] < 16,
    ensures
        ({
            let (all, later) = (scan(s), scan(s.skip(3)));
            &&& all.readings.len() == later.readings.len() + 1
            &&& all.readings[0].range == s[0] - 0xA0
            &&& all.readings[0].adc == s[1] + 256 * s[2]
            &&& all.readings.skip(1) == later.readings
            &&& all.lines == later.lines
            &&& all.rest == later.rest
        }),
{
    assert(scan(s).readings.skip(1) == scan(s.skip(3)).readings);
}

/// A byte from `0xA0` to `0xAF` that starts no frame is dropped, and so is every byte that is
/// neither one of these nor `#`: what stands behind it is read as if it stood alone.
pub proof fn what_starts_nothing_is_dropped(s: Seq<u8>)
    requires
        s.len() > 0,
        s[0] != 0x23,
        s[0] < 0xA0 || s[0] > 0xAF || s.len() < 3 || s[2] >= 16,
    ensures
        scan(s) == scan(s.skip(1)),
{
}

/// From `#` to the next line feed, at `k`, stands a line: it comes first, without the line feed,
/// and then what stands behind that.
pub proof fn lines_are_read(s: Seq<u8>, k: int)
    requires
        0 < k < s.len(),
        s[0] == 0x23,
        s[k] == 0x0A,
        forall|j: int| 0 <= j < k ==> s[j] != 0x0A,
    ensures
        ({
            let (all, later) = (scan(s), scan(s.skip(k + 1)));
            &&& all.lines.len() == later.lines.len() + 1
            &&& all.lines[0] == s.take(k)
            &&& all.lines.skip(1) == later.lines
            &&& all.readings == later.readings
            &&& all.rest == later.rest
        }),
{
    lemma_line_len(s, k);
    assert(scan(s).lines.skip(1) == scan(s.skip(k + 1)).lines);
}

/// A `#` without a line feed behind it waits, with all that follows it; and nothing yields nothing.
pub proof fn open_lines_wait(s: Seq<u8>)
    requires
        s.len() == 0 || s[0] == 0x23,
        forall|j: int| 0 <= j < s.len() ==> s[j] != 0x0A,
    ensures
        scan(s).readings.len() == 0,
        scan(s).lines.len() == 0,
        scan(s).rest == s,
{
    lemma_line_len(s, s.len() as int);
}

/// A batch that holds what a stretch yields has its readings, and for each of its lines the text,
/// in the order of the stream.
pub proof fn batches_keep_the_order(batch: Batch, found: Scan, i: int)
    requires
        batch.holds(found),
    ensures
        batch.readings.len() == found.readings.len(),
        0 <= i < found.readings.len() ==> batch.readings[i] == found.readings[i],
        batch.lines.len() == found.lines.len(),
        0 <= i < found.lines.len() ==> batch.lines[i]@ == line_text(found.lines[i]),
{
}

/// The text of a line of UTF-8 is what the bytes say, from the first to the last character that is
/// no white space; of other bytes it is empty.
pub proof fn line_text_is_what_the_line_says(line: Seq<u8>) -> (ends: (int, int))
    ensures
        !valid_utf8(line) ==> line_text(line).len() == 0,
        valid_utf8(line) ==> {
            let said = decode_utf8(line);
            let text = line_text(line);
            &&& 0 <= ends.0 <= ends.1 <= said.len()
            &&& text == said.subrange(ends.0, ends.1)
            &&& forall|i: int| 0 <= i < ends.0 ==> is_white_space(#[trigger] said[i])
            &&& forall|i: int| ends.1 <= i < said.len() ==> is_white_space(#[trigger] said[i])
            &&& text.len() > 0 ==> !is_white_space(text[0]) && !is_white_space(
                text[text.len() - 1],
            )
        },
{
    trimming_cuts_white_space_alone(decode_utf8(line))
}

/// The first range has 1100 ohms. Less a hundred, each of the next three has ten times as many as
/// the one before it; beyond these it stays.
pub proof fn ranges_are_decades(range: u8)
    ensures
        range_ohms(0) == 1_100,
        range < 3 ==> range_ohms((range + 1) as u8) - 100 == 10 * (range_ohms(range) - 100),
        3 <= range ==> range_ohms(range) == range_ohms(3),
        range_ohms(3) == 1_000_100,
{
    reveal_with_fuel(pow, 4);
}

/// A read brings the bytes that came, and none where it timed out or failed.
pub proof fn reads_bring_their_bytes(event: ReadEvent)
    ensures
        event matches ReadEvent::Bytes(chunk) ==> event.bytes() == chunk@,
        !(event is Bytes) ==> event.bytes().len() == 0,
{
}

} // verus!
