//! Waveform peaks for the web remote's display.
//!
//! Every segment of the range, present or missing, takes the same number of
//! points, so that a point's place tells its segment.

use vstd::prelude::*;

use crate::control::LogLevel;
use crate::encode::{self, arg};
use crate::state::{RungId, SeqNo, StreamProfile};
use crate::store::{self, DvrStore};
use crate::text::{self, decimal_text, push_decimal};

verus! {

/// Audio in one point, in ms.
pub const POINT_MS: u32 = 40;

/// Sample rate that segments are decoded at.
pub const DECODE_SAMPLE_RATE: u32 = 8_000;

/// Samples in one point.
pub const SAMPLES_PER_POINT: usize = 320;

/// The document that the display reads.
#[derive(Clone, Debug, PartialEq, Eq)]
pub struct WaveformJson {
    pub version: u32,
    pub channels: u32,
    pub sample_rate: u32,
    pub samples_per_pixel: u32,
    pub bits: i32,
    pub length: usize,
    /// Minimum and maximum of each point.
    pub data: Vec<i8>,
    /// Rung of each point, `None` for a gap.
    pub rungs: Vec<Option<RungId>>,
    /// Segment of each point.
    pub seqs: Vec<SeqNo>,
    /// The segment of the point is on record, but could not be decoded.
    pub decode_failed: Vec<bool>,
}

/// What could be had of a segment's audio.
#[derive(Clone, Debug, PartialEq, Eq)]
pub enum SegmentAudio {
    /// There is no file.
    Missing,
    /// The file is there, but does not decode.
    Undecodable,
    Samples(Vec<i16>),
}

/// One segment of a range: its number, and the rung and file to show, if any.
pub type IndexEntry = (SeqNo, Option<(RungId, String)>);

/// `entries` gives the best rung and its file for each segment from `start` to
/// `end`.
pub open spec fn is_snapshot(
    s: &DvrStore,
    start: SeqNo,
    end: SeqNo,
    entries: Seq<IndexEntry>,
) -> bool {
    &&& entries.len() == (if start <= end {
        end - start + 1
    } else {
        0
    })
    &&& forall|i: int|
        0 <= i < entries.len() ==> (#[trigger] entries[i]).0 == start + i && match entries[i].1 {
            Some((rung, path)) => store::is_best(s.held(), entries[i].0, rung) && path@
                == store::segment_file(s.dir(), rung, entries[i].0),
            None => !s.held().contains_key(entries[i].0),
        }
}

/// The best rung and its file for each segment from `start` to `end`.
pub fn snapshot_index(s: &DvrStore, start: SeqNo, end: SeqNo) -> (entries: Vec<IndexEntry>)
    requires
        s.wf(),
    ensures
        is_snapshot(s, start, end, entries@),
{
    let mut entries: Vec<IndexEntry> = Vec::new();
    let mut seq: SeqNo = start;
    while seq <= end
        invariant
            s.wf(),
            start <= seq,
            seq <= end || seq == start,
            entries@.len() == seq - start,
            forall|i: int|
                0 <= i < entries@.len() ==> (#[trigger] entries@[i]).0 == start + i
                    && match entries@[i].1 {
                    Some((rung, path)) => store::is_best(s.held(), entries@[i].0, rung) && path@
                        == store::segment_file(s.dir(), rung, entries@[i].0),
                    None => !s.held().contains_key(entries@[i].0),
                },
        decreases end + 1 - seq,
    {
        let entry: Option<(RungId, String)> = match s.best_rung(seq) {
            Some(rung) => Some((rung, s.segment_path(rung, seq))),
            None => None,
        };
        entries.push((seq, entry));
        if seq == end {
            return entries;
        }
        seq = seq + 1;
    }
    entries
}

/// A sample of 16 bits as one of 8 bits: the upper byte.
pub open spec fn scaled(sample: i16) -> int {
    sample as int / 256
}

/// A sample of 16 bits as one of 8 bits: the upper byte.
pub fn scale_to_i8(sample_i16: i16) -> (scaled_sample: i8)
    ensures
        scaled_sample == scaled(sample_i16),
{
    let wide: i32 = sample_i16 as i32;
    // Shifted up into the positive range, where division rounds down too.
    let upper: i32 = (wide + 32768) / 256 - 128;
    upper as i8
}

/// `value` is the least of the samples from `from` up to but excluding `to`.
pub open spec fn is_least(samples: Seq<i16>, from: int, to: int, value: i16) -> bool {
    &&& exists|i: int| from <= i < to && #[trigger] samples[i] == value
    &&& forall|i: int| from <= i < to ==> value <= #[trigger] samples[i]
}

/// `value` is the greatest of the samples from `from` up to but excluding `to`.
pub open spec fn is_greatest(samples: Seq<i16>, from: int, to: int, value: i16) -> bool {
    &&& exists|i: int| from <= i < to && #[trigger] samples[i] == value
    &&& forall|i: int| from <= i < to ==> #[trigger] samples[i] <= value
}

/// `point` shows the samples from `from` up to but excluding `to`; a flat line
/// if there are none.
pub open spec fn shows(samples: Seq<i16>, from: int, to: int, point: (i8, i8)) -> bool {
    if from >= to {
        point == (0i8, 0i8)
    } else {
        exists|low: i16, high: i16|
            #[trigger] is_least(samples, from, to, low) && #[trigger] is_greatest(
                samples,
                from,
                to,
                high,
            ) && point.0 == scaled(low) && point.1 == scaled(high)
    }
}

/// Where point `i` begins.
pub open spec fn point_start(len: int, samples_per_point: int, i: int) -> int {
    if i * samples_per_point < len {
        i * samples_per_point
    } else {
        len
    }
}

/// Where point `i` ends: the last one takes all that is left.
pub open spec fn point_end(len: int, samples_per_point: int, points: int, i: int) -> int {
    if i + 1 == points {
        len
    } else {
        point_start(len, samples_per_point, i + 1)
    }
}

/// The point of a stretch of samples.
fn peak_of(samples: &[i16], from: usize, to: usize) -> (point: (i8, i8))
    requires
        to <= samples@.len(),
    ensures
        shows(samples@, from as int, to as int, point),
{
    if from >= to {
        return (0, 0);
    }
    let mut low: i16 = samples[from];
    let mut high: i16 = samples[from];
    let mut i: usize = from + 1;
    while i < to
        invariant
            from < i <= to <= samples@.len(),
            is_least(samples@, from as int, i as int, low),
            is_greatest(samples@, from as int, i as int, high),
        decreases to - i,
    {
        if samples[i] < low {
            low = samples[i];
        }
        if samples[i] > high {
            high = samples[i];
        }
        i = i + 1;
    }
    assert(is_least(samples@, from as int, to as int, low) && is_greatest(
        samples@,
        from as int,
        to as int,
        high,
    ));
    (scale_to_i8(low), scale_to_i8(high))
}

/// The peaks of a segment, in so many points.
pub fn extract_peaks(samples: &[i16], samples_per_point: usize, target_points: usize) -> (points:
    Vec<(i8, i8)>)
    ensures
        points@.len() == target_points,
        forall|i: int|
            0 <= i < target_points ==> shows(
                samples@,
                point_start(samples@.len() as int, samples_per_point as int, i),
                point_end(
                    samples@.len() as int,
                    samples_per_point as int,
                    target_points as int,
                    i,
                ),
                #[trigger] points@[i],
            ),
{
    let len: usize = samples.len();
    let mut points: Vec<(i8, i8)> = Vec::new();
    let mut start: usize = 0;
    let mut i: usize = 0;
    while i < target_points
        invariant
            len == samples@.len(),
            i <= target_points,
            start == point_start(len as int, samples_per_point as int, i as int),
            points@.len() == i,
            forall|j: int|
                0 <= j < i ==> shows(
                    samples@,
                    point_start(len as int, samples_per_point as int, j),
                    point_end(len as int, samples_per_point as int, target_points as int, j),
                    #[trigger] points@[j],
                ),
        decreases target_points - i,
    {
        proof {
            let k = i as int;
            let w = samples_per_point as int;
            assert((k + 1) * w == k * w + w) by (nonlinear_arith);
            assert(k * w >= 0) by (nonlinear_arith)
                requires
                    k >= 0,
                    w >= 0,
            ;
        }
        let next: usize = if samples_per_point < len - start {
            start + samples_per_point
        } else {
            len
        };
        let end: usize = if i + 1 == target_points {
            len
        } else {
            next
        };
        points.push(peak_of(samples, start, end));
        start = next;
        i = i + 1;
    }
    points
}

/// Two bytes as a sample, lower one first.
pub open spec fn le_i16(low: u8, high: u8) -> int {
    let value = low + 256 * high;
    if value < 32768 {
        value
    } else {
        value - 65536
    }
}

/// The samples in a run of bytes; an odd byte at the end is ignored.
pub fn samples_from_le(bytes: &[u8]) -> (samples: Vec<i16>)
    ensures
        samples@.len() == bytes@.len() / 2,
        forall|i: int|
            0 <= i < samples@.len() ==> #[trigger] samples@[i] == le_i16(
                bytes@[2 * i],
                bytes@[2 * i + 1],
            ),
{
    let count: usize = bytes.len() / 2;
    let mut samples: Vec<i16> = Vec::new();
    let mut i: usize = 0;
    while i < count
        invariant
            count == bytes@.len() / 2,
            bytes@.len() <= usize::MAX,
            i <= count,
            samples@.len() == i,
            forall|j: int|
                0 <= j < i ==> #[trigger] samples@[j] == le_i16(bytes@[2 * j], bytes@[2 * j + 1]),
        decreases count - i,
    {
        let value: i32 = bytes[2 * i] as i32 + 256 * bytes[2 * i + 1] as i32;
        samples.push(
            if value < 32768 {
                value as i16
            } else {
                (value - 65536) as i16
            },
        );
        i = i + 1;
    }
    samples
}

/// Points that a segment takes, at least one.
pub open spec fn points_in(segment_ms: u32) -> int {
    if segment_ms < POINT_MS {
        1
    } else {
        (segment_ms / POINT_MS) as int
    }
}

/// A segment is on record, but no audio could be had of it.
pub open spec fn failed(entry: IndexEntry, audio: SegmentAudio) -> bool {
    entry.1 is Some && !(audio is Samples)
}

/// `point` shows part `j` of a segment. A gap, and a segment without audio, is a
/// flat line.
pub open spec fn shows_segment(
    entry: IndexEntry,
    audio: SegmentAudio,
    points: int,
    j: int,
    point: (i8, i8),
) -> bool {
    match (entry.1, audio) {
        (Some(_), SegmentAudio::Samples(samples)) => shows(
            samples@,
            point_start(samples@.len() as int, SAMPLES_PER_POINT as int, j),
            point_end(samples@.len() as int, SAMPLES_PER_POINT as int, points, j),
            point,
        ),
        _ => point == (0i8, 0i8),
    }
}

/// The points of one segment.
fn segment_points(entry: &IndexEntry, audio: &SegmentAudio, points: usize) -> (out: Vec<(i8, i8)>)
    ensures
        out@.len() == points,
        forall|j: int|
            0 <= j < points ==> shows_segment(*entry, *audio, points as int, j, #[trigger] out@[j]),
{
    if entry.1.is_some() {
        if let SegmentAudio::Samples(samples) = audio {
            return extract_peaks(samples.as_slice(), SAMPLES_PER_POINT, points);
        }
    }
    let mut out: Vec<(i8, i8)> = Vec::new();
    let mut j: usize = 0;
    while j < points
        invariant
            j <= points,
            out@.len() == j,
            forall|t: int| 0 <= t < j ==> #[trigger] out@[t] == (0i8, 0i8),
        decreases points - j,
    {
        out.push((0, 0));
        j = j + 1;
    }
    out
}

/// Point `p` shows its part of its segment, where every segment takes `points`
/// points.
pub open spec fn shows_point(
    w: WaveformJson,
    entries: Seq<IndexEntry>,
    audio: Seq<SegmentAudio>,
    points: int,
    p: int,
) -> bool {
    let i = p / points;
    &&& w.seqs@[p] == entries[i].0
    &&& w.rungs@[p] == (match entries[i].1 {
        Some((rung, path)) => Some(rung),
        None => None,
    })
    &&& w.decode_failed@[p] == failed(entries[i], audio[i])
    &&& shows_segment(
        entries[i],
        audio[i],
        points,
        p % points,
        (w.data@[2 * p], w.data@[2 * p + 1]),
    )
}

/// The lists of a waveform hold its first `n` points.
pub open spec fn covers(
    w: WaveformJson,
    entries: Seq<IndexEntry>,
    audio: Seq<SegmentAudio>,
    points: int,
    n: int,
) -> bool {
    &&& w.rungs@.len() == n
    &&& w.seqs@.len() == n
    &&& w.decode_failed@.len() == n
    &&& w.data@.len() == 2 * n
    &&& forall|p: int| 0 <= p < n ==> #[trigger] shows_point(w, entries, audio, points, p)
}

/// The fields of a waveform that do not depend on the audio.
pub open spec fn is_framed(w: WaveformJson) -> bool {
    &&& w.version == 2
    &&& w.channels == 1
    &&& w.sample_rate == DECODE_SAMPLE_RATE
    &&& w.samples_per_pixel == SAMPLES_PER_POINT
    &&& w.bits == 8
}

proof fn lemma_point_place(i: int, j: int, points: int)
    requires
        0 <= j < points,
    ensures
        (i * points + j) / points == i,
        (i * points + j) % points == j,
{
    vstd::arithmetic::div_mod::lemma_fundamental_div_mod_converse(i * points + j, points, i, j);
}

/// The waveform of a range of segments.
pub fn build_from_index(
    profile: &StreamProfile,
    entries: &[IndexEntry],
    audio: &[SegmentAudio],
) -> (w: WaveformJson)
    requires
        entries@.len() == audio@.len(),
    ensures
        is_framed(w),
        w.length == w.rungs@.len(),
        covers(
            w,
            entries@,
            audio@,
            points_in(profile.segment_ms),
            entries@.len() * points_in(profile.segment_ms),
        ),
{
    let points: usize = if profile.segment_ms < POINT_MS {
        1
    } else {
        (profile.segment_ms / POINT_MS) as usize
    };
    let ghost pts = points as int;
    let mut w = WaveformJson {
        version: 2,
        channels: 1,
        sample_rate: DECODE_SAMPLE_RATE,
        samples_per_pixel: 320,
        bits: 8,
        length: 0,
        data: Vec::new(),
        rungs: Vec::new(),
        seqs: Vec::new(),
        decode_failed: Vec::new(),
    };
    let mut i: usize = 0;
    assert(0 * pts == 0);
    while i < entries.len()
        invariant
            entries@.len() == audio@.len(),
            pts == points,
            pts >= 1,
            i <= entries@.len(),
            is_framed(w),
            covers(w, entries@, audio@, pts, i * pts),
        decreases entries@.len() - i,
    {
        let seq: SeqNo = entries[i].0;
        let rung: Option<RungId> = match &entries[i].1 {
            Some((rung, _)) => Some(*rung),
            None => None,
        };
        let is_failed = match &audio[i] {
            SegmentAudio::Missing | SegmentAudio::Undecodable => rung.is_some(),
            SegmentAudio::Samples(_) => false,
        };
        let segment = segment_points(&entries[i], &audio[i], points);
        let mut j: usize = 0;
        while j < points
            invariant
                i < entries@.len() == audio@.len(),
                pts == points,
                pts >= 1,
                j <= points,
                segment@.len() == points,
                forall|t: int|
                    0 <= t < points ==> shows_segment(
                        entries@[i as int],
                        audio@[i as int],
                        pts,
                        t,
                        #[trigger] segment@[t],
                    ),
                seq == entries@[i as int].0,
                rung == (match entries@[i as int].1 {
                    Some((rung, path)) => Some(rung),
                    None => None,
                }),
                is_failed == failed(entries@[i as int], audio@[i as int]),
                is_framed(w),
                covers(w, entries@, audio@, pts, i * pts + j),
            decreases points - j,
        {
            let ghost before = w;
            let ghost n = i * pts + j;
            let (low, high) = segment[j];
            w.data.push(low);
            w.data.push(high);
            w.rungs.push(rung);
            w.seqs.push(seq);
            w.decode_failed.push(is_failed);
            proof {
                lemma_point_place(i as int, j as int, pts);
                assert(shows_segment(
                    entries@[i as int],
                    audio@[i as int],
                    pts,
                    j as int,
                    segment@[j as int],
                ));
                assert(n >= 0) by (nonlinear_arith)
                    requires
                        n == i * pts + j,
                        i >= 0,
                        j >= 0,
                        pts >= 1,
                ;
                assert forall|p: int| 0 <= p < n + 1 implies #[trigger] shows_point(
                    w,
                    entries@,
                    audio@,
                    pts,
                    p,
                ) by {
                    if p < n {
                        assert(shows_point(before, entries@, audio@, pts, p));
                        assert(w.data@[2 * p] == before.data@[2 * p]);
                        assert(w.data@[2 * p + 1] == before.data@[2 * p + 1]);
                    } else {
                        assert(w.data@[2 * p] == low);
                        assert(w.data@[2 * p + 1] == high);
                    }
                }
            }
            j = j + 1;
        }
        proof {
            let k = i as int;
            assert((k + 1) * pts == k * pts + pts) by (nonlinear_arith);
        }
        i = i + 1;
    }
    let ghost before = w;
    w.length = w.rungs.len();
    proof {
        assert forall|p: int| 0 <= p < i * pts implies #[trigger] shows_point(
            w,
            entries@,
            audio@,
            pts,
            p,
        ) by {
            assert(shows_point(before, entries@, audio@, pts, p));
        }
    }
    w
}

/// What is logged about a segment on record of which no audio could be had.
pub open spec fn warning_text(seq: SeqNo, rung: RungId, audio: SegmentAudio) -> Seq<char> {
    if audio is Missing {
        "waveform: segment "@ + text::decimal(seq as nat) + " (rung "@ + text::decimal(rung as nat)
            + ") recorded in the DVR index but missing on disk"@
    } else {
        "waveform: failed to decode segment "@ + text::decimal(seq as nat) + " (rung "@
            + text::decimal(rung as nat) + "), rendering as a flagged flat line"@
    }
}

/// What is logged about the first `n` segments of a range: one warning for each
/// that failed, in their order.
pub open spec fn warnings_of(entries: Seq<IndexEntry>, audio: Seq<SegmentAudio>, n: int) -> Seq<
    (LogLevel, Seq<char>),
>
    decreases n,
{
    if n <= 0 {
        Seq::empty()
    } else if failed(entries[n - 1], audio[n - 1]) {
        warnings_of(entries, audio, n - 1).push(
            (
                LogLevel::Warn,
                warning_text(entries[n - 1].0, (entries[n - 1].1->0).0, audio[n - 1]),
            ),
        )
    } else {
        warnings_of(entries, audio, n - 1)
    }
}

/// Log lines as plain values.
pub open spec fn lines_of(lines: Seq<(LogLevel, String)>) -> Seq<(LogLevel, Seq<char>)> {
    lines.map_values(|l: (LogLevel, String)| (l.0, l.1@))
}

/// A segment's number and rung between pieces of text.
fn sentence(before: &str, seq: SeqNo, rung: RungId, after: &str) -> (s: String)
    ensures
        s@ == before@ + text::decimal(seq as nat) + " (rung "@ + text::decimal(rung as nat) + after@,
{
    let mut s = String::new();
    s.append(before);
    push_decimal(&mut s, seq);
    s.append(" (rung ");
    push_decimal(&mut s, rung as u64);
    s.append(after);
    assert(s@ =~= before@ + text::decimal(seq as nat) + " (rung "@ + text::decimal(rung as nat)
        + after@);
    s
}

/// What is logged about a range of segments: one warning for each that is on
/// record and of which no audio could be had, in their order.
pub fn waveform_warnings(entries: &[IndexEntry], audio: &[SegmentAudio]) -> (lines: Vec<
    (LogLevel, String),
>)
    requires
        entries@.len() == audio@.len(),
    ensures
        lines_of(lines@) == warnings_of(entries@, audio@, entries@.len() as int),
{
    let mut lines: Vec<(LogLevel, String)> = Vec::new();
    let mut i: usize = 0;
    assert(lines_of(lines@) =~= Seq::empty());
    while i < entries.len()
        invariant
            entries@.len() == audio@.len(),
            i <= entries@.len(),
            lines_of(lines@) == warnings_of(entries@, audio@, i as int),
        decreases entries@.len() - i,
    {
        if let Some((rung, _)) = &entries[i].1 {
            let seq: SeqNo = entries[i].0;
            let warning: Option<String> = match &audio[i] {
                SegmentAudio::Missing => Some(
                    sentence(
                        "waveform: segment ",
                        seq,
                        *rung,
                        ") recorded in the DVR index but missing on disk",
                    ),
                ),
                SegmentAudio::Undecodable => Some(
                    sentence(
                        "waveform: failed to decode segment ",
                        seq,
                        *rung,
                        "), rendering as a flagged flat line",
                    ),
                ),
                SegmentAudio::Samples(_) => None,
            };
            if let Some(message) = warning {
                let ghost before = lines_of(lines@);
                let ghost line = (LogLevel::Warn, message@);
                lines.push((LogLevel::Warn, message));
                assert(lines_of(lines@) =~= before.push(line));
            }
        }
        i = i + 1;
    }
    lines
}

/// A true gap is never flagged as a decode failure; a segment on record always is
/// if no audio could be had of it, and is a flat line then.
pub proof fn law_failures_are_told_from_gaps(
    w: WaveformJson,
    entries: Seq<IndexEntry>,
    audio: Seq<SegmentAudio>,
    points: int,
    n: int,
    p: int,
)
    requires
        covers(w, entries, audio, points, n),
        0 <= p < n,
    ensures
        w.rungs@[p] is None ==> !w.decode_failed@[p],
        w.rungs@[p] is Some ==> w.decode_failed@[p] == !(audio[p / points] is Samples),
        w.rungs@[p] is None || w.decode_failed@[p] ==> w.data@[2 * p] == 0 && w.data@[2 * p + 1]
            == 0,
{
    assert(shows_point(w, entries, audio, points, p));
}

/// There are as many warnings as segments that failed.
pub proof fn law_every_failure_is_logged_once(
    entries: Seq<IndexEntry>,
    audio: Seq<SegmentAudio>,
    n: int,
)
    requires
        0 <= n <= entries.len(),
        entries.len() == audio.len(),
    ensures
        warnings_of(entries, audio, n).len() == Seq::new(n as nat, |i: int| i).filter(
            |i: int| failed(entries[i], audio[i]),
        ).len(),
    decreases n,
{
    let fails = |i: int| failed(entries[i], audio[i]);
    let places = Seq::new(n as nat, |i: int| i);
    reveal(Seq::filter);
    if n > 0 {
        law_every_failure_is_logged_once(entries, audio, n - 1);
        assert(places.drop_last() =~= Seq::new((n - 1) as nat, |i: int| i));
    }
}

/// The arguments of the process that decodes a segment.
pub open spec fn decode_line(path: Seq<char>) -> Seq<Seq<char>> {
    seq![
        "-hide_banner"@,
        "-loglevel"@,
        "error"@,
        "-i"@,
        path,
        "-f"@,
        "s16le"@,
        "-ac"@,
        "1"@,
        "-ar"@,
        text::decimal(DECODE_SAMPLE_RATE as nat),
        "-"@,
    ]
}

/// The arguments of the process that decodes a segment to mono for its peaks.
pub fn decode_args(path: &str) -> (args: Vec<String>)
    ensures
        encode::texts(args@) == decode_line(path@),
{
    let mut args: Vec<String> = Vec::new();
    assert(encode::texts(args@) =~= Seq::<Seq<char>>::empty());
    arg(&mut args, "-hide_banner");
    arg(&mut args, "-loglevel");
    arg(&mut args, "error");
    arg(&mut args, "-i");
    arg(&mut args, path);
    arg(&mut args, "-f");
    arg(&mut args, "s16le");
    arg(&mut args, "-ac");
    arg(&mut args, "1");
    arg(&mut args, "-ar");
    let rate = decimal_text(DECODE_SAMPLE_RATE as u64);
    arg(&mut args, rate.as_str());
    arg(&mut args, "-");
    args
}

/// The points of a segment follow one another without a gap or an overlap, from its first
/// sample to its last, and all but those at the end take the same number of samples.
pub proof fn law_points_tile_the_segment(len: int, samples_per_point: int, points: int, i: int)
    requires
        0 <= len,
        0 <= samples_per_point,
        0 <= i < points,
    ensures
        point_start(len, samples_per_point, 0) == 0,
        i + 1 < points ==> point_end(len, samples_per_point, points, i) == point_start(
            len,
            samples_per_point,
            i + 1,
        ),
        point_end(len, samples_per_point, points, points - 1) == len,
        0 <= point_start(len, samples_per_point, i) <= point_end(len, samples_per_point, points, i)
            <= len,
        (i + 1) * samples_per_point <= len ==> point_start(len, samples_per_point, i) == i
            * samples_per_point,
        i + 1 < points && (i + 1) * samples_per_point <= len ==> point_end(
            len,
            samples_per_point,
            points,
            i,
        ) - point_start(len, samples_per_point, i) == samples_per_point,
{
    assert((i + 1) * samples_per_point == i * samples_per_point + samples_per_point)
        by (nonlinear_arith);
    assert(0 <= i * samples_per_point) by (nonlinear_arith)
        requires
            0 <= i,
            0 <= samples_per_point,
    ;
    assert(0 * samples_per_point == 0);
}

/// A point takes in every sample of its stretch, and reaches no further than they do.
pub proof fn law_a_point_bounds_its_samples(
    samples: Seq<i16>,
    from: int,
    to: int,
    point: (i8, i8),
    i: int,
)
    requires
        shows(samples, from, to, point),
        from <= i < to,
    ensures
        point.0 * 256 <= samples[i],
        samples[i] < (point.1 + 1) * 256,
        exists|k: int|
            from <= k < to && point.0 * 256 <= #[trigger] samples[k] && samples[k] < (point.0 + 1)
                * 256,
        exists|k: int|
            from <= k < to && point.1 * 256 <= #[trigger] samples[k] && samples[k] < (point.1 + 1)
                * 256,
{
    let (low, high) = choose|low: i16, high: i16|
        #[trigger] is_least(samples, from, to, low) && #[trigger] is_greatest(
            samples,
            from,
            to,
            high,
        ) && point.0 == scaled(low) && point.1 == scaled(high);
    assert(is_least(samples, from, to, low) && is_greatest(samples, from, to, high));
    assert(low <= samples[i] <= high);
    let a = choose|k: int| from <= k < to && #[trigger] samples[k] == low;
    let b = choose|k: int| from <= k < to && #[trigger] samples[k] == high;
    assert(samples[a] == low && samples[b] == high);
}

/// A sample's two bytes come lower one first, in two's complement: every sample that was
/// written so is read back.
pub proof fn law_samples_are_read_back(value: i16)
    ensures
        le_i16(((value + 65536) % 256) as u8, ((value + 65536) / 256 % 256) as u8) == value,
{
}

/// A segment takes as many points of 40 ms as it has, and at least one; a point at the rate
/// that segments are decoded at is 40 ms long.
pub proof fn law_a_point_is_forty_milliseconds(segment_ms: u32)
    ensures
        segment_ms >= 40 ==> points_in(segment_ms) * 40 <= segment_ms < (points_in(segment_ms) + 1)
            * 40,
        segment_ms < 40 ==> points_in(segment_ms) == 1,
        SAMPLES_PER_POINT * 1000 == DECODE_SAMPLE_RATE * 40,
{
}

/// The place of a point tells its segment: those of segment `i` are the ones from `i` times
/// the points of a segment on, and carry its number and its rung.
pub proof fn law_places_tell_segments(
    w: WaveformJson,
    entries: Seq<IndexEntry>,
    audio: Seq<SegmentAudio>,
    points: int,
    i: int,
    j: int,
)
    requires
        covers(w, entries, audio, points, entries.len() * points),
        0 <= i < entries.len(),
        0 <= j < points,
    ensures
        ({
            let p = i * points + j;
            &&& 0 <= p < w.seqs@.len()
            &&& w.seqs@[p] == entries[i].0
            &&& w.rungs@[p] is Some <==> entries[i].1 is Some
            &&& entries[i].1 matches Some((rung, path)) ==> w.rungs@[p] == Some(rung)
        }),
{
    let p = i * points + j;
    lemma_point_place(i, j, points);
    assert(0 <= p < entries.len() * points) by (nonlinear_arith)
        requires
            p == i * points + j,
            0 <= j < points,
            0 <= i,
            i + 1 <= entries.len(),
    ;
    assert(shows_point(w, entries, audio, points, p));
}

/// A segment is decoded from its file to samples of two bytes on one channel, so many a
/// second that a point of 320 of them is 40 ms long, onto standard output.
pub proof fn law_segments_are_decoded_for_their_points(path: Seq<char>) -> (at: int)
    ensures
        ({
            let args = decode_line(path);
            &&& 0 <= at && at + 8 == args.len() - 1
            &&& args[at] == "-i"@ && args[at + 1] == path
            &&& args[at + 2] == "-f"@ && args[at + 3] == "s16le"@
            &&& args[at + 4] == "-ac"@ && args[at + 5] == "1"@
            &&& args[at + 6] == "-ar"@ && args[at + 7] == text::decimal(8_000)
            &&& args.last() == "-"@
        }),
{
    3
}

/// Every segment of the range is shown at the best rung on disk, from the file of that rung,
/// and one that is not on disk as a gap.
pub proof fn law_the_best_rung_is_shown(
    s: &DvrStore,
    start: SeqNo,
    end: SeqNo,
    entries: Seq<IndexEntry>,
    seq: SeqNo,
    rung: RungId,
)
    requires
        is_snapshot(s, start, end, entries),
        start <= seq <= end,
    ensures
        seq - start < entries.len(),
        entries[seq - start].0 == seq,
        entries[seq - start].1 is Some <==> s.held().contains_key(seq),
        entries[seq - start].1 matches Some((best, path)) ==> {
            &&& s.held()[seq].contains(best)
            &&& s.held()[seq].contains(rung) ==> rung <= best
            &&& path@ == store::segment_file(s.dir(), best, seq)
        },
{
    let entry = entries[seq - start];
    assert(entry.0 == start + (seq - start));
}

/// A warning about a segment names it and its rung.
pub proof fn law_a_warning_names_its_segment(seq: SeqNo, rung: RungId, audio: SegmentAudio)
    ensures
        text::contains_text(
            warning_text(seq, rung, audio),
            text::decimal(seq as nat) + " (rung "@ + text::decimal(rung as nat) + ")"@,
        ),
{
    reveal_strlit(")");
    reveal_strlit(") recorded in the DVR index but missing on disk");
    reveal_strlit("), rendering as a flagged flat line");
    let line = warning_text(seq, rung, audio);
    let name = text::decimal(seq as nat) + " (rung "@ + text::decimal(rung as nat) + ")"@;
    let at = if audio is Missing {
        "waveform: segment "@.len() as int
    } else {
        "waveform: failed to decode segment "@.len() as int
    };
    assert(line.subrange(at, at + name.len()) =~= name);
    assert(text::stands_at(line, name, at));
}

} // verus!
