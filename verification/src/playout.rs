//! The playout engine: which segment is fed to the decoder next, and which one
//! is audible.
//!
//! The engine feeds segments to a decoder well ahead of real time. What it has
//! fed and the listener has not heard yet is kept in a queue, which the output
//! callback drains as samples leave the hardware: the reported position is that
//! of the audible segment, not that of the one fed last.

use std::collections::VecDeque;
use vstd::prelude::*;

use crate::encode::{self, arg};
use crate::state::{PlayoutState, PlayoutStatus, RungId, SeqNo};
use crate::store::{self, DvrStore};
use crate::text::{self, decimal_text, push_decimal};

verus! {

/// Interleaved output channels.
pub const CHANNELS: u64 = 2;

/// Segments that fit in the output ring.
pub const RING_SEGMENTS: u64 = 8;

/// A segment that was fed: its number, the rung that was fed of it, and the
/// samples of it that have not been heard yet. A segment that was skipped has
/// no rung and no samples.
pub type PendingSegment = (SeqNo, Option<RungId>, u64);

/// Samples in the first `k` entries of the queue.
pub open spec fn samples_before(pending: Seq<PendingSegment>, k: int) -> int
    decreases k,
{
    if k <= 0 {
        0
    } else {
        samples_before(pending, k - 1) + pending[k - 1].2
    }
}

/// Exactly the first `k` entries are over once `filled` samples are heard.
pub open spec fn drains(pending: Seq<PendingSegment>, filled: int, k: int) -> bool {
    &&& 0 <= k <= pending.len()
    &&& samples_before(pending, k) <= filled
    &&& k < pending.len() ==> filled < samples_before(pending, k + 1)
}

/// What is left of the queue once its first `k` entries are over and `filled`
/// samples are heard.
pub open spec fn left_after(pending: Seq<PendingSegment>, filled: int, k: int) -> Seq<
    PendingSegment,
> {
    if k < pending.len() {
        seq![
            (
                pending[k].0,
                pending[k].1,
                (pending[k].2 - (filled - samples_before(pending, k))) as u64,
            ),
        ] + pending.skip(k + 1)
    } else {
        Seq::empty()
    }
}

/// The position and rung to report once the first `k` entries are over.
pub open spec fn head_after(pending: Seq<PendingSegment>, k: int) -> Option<
    (SeqNo, Option<RungId>),
> {
    if k == 0 {
        None
    } else {
        Some(
            (
                (pending[k - 1].0 + 1) as u64,
                if k < pending.len() {
                    pending[k].1
                } else {
                    None
                },
            ),
        )
    }
}

/// The rung of the segment at the front of the queue, which is the one that is
/// draining.
pub open spec fn front_rung(pending: Seq<PendingSegment>) -> Option<RungId> {
    if pending.len() == 0 {
        None
    } else {
        pending[0].1
    }
}

/// Every segment in the queue has a successor.
pub open spec fn queue_in_range(pending: Seq<PendingSegment>) -> bool {
    forall|i: int| 0 <= i < pending.len() ==> (#[trigger] pending[i]).0 < u64::MAX
}

pub(crate) proof fn lemma_samples_grow(pending: Seq<PendingSegment>, a: int, b: int)
    requires
        0 <= a <= b <= pending.len(),
    ensures
        0 <= samples_before(pending, a) <= samples_before(pending, b),
    decreases b,
{
    if a < b {
        lemma_samples_grow(pending, a, b - 1);
    } else if a > 0 {
        lemma_samples_grow(pending, a - 1, a - 1);
    }
}

/// Takes note that `filled` samples have been heard. Returns the segment that
/// is audible now and its rung, if the head moved.
pub fn advance_pending(pending: &mut VecDeque<PendingSegment>, filled: u64) -> (head: Option<
    (SeqNo, Option<RungId>),
>)
    requires
        queue_in_range(old(pending)@),
    ensures
        exists|k: int|
            {
                &&& #[trigger] drains(old(pending)@, filled as int, k)
                &&& final(pending)@ == left_after(old(pending)@, filled as int, k)
                &&& head == head_after(old(pending)@, k)
            },
        queue_in_range(final(pending)@),
{
    let ghost all = pending@;
    let ghost mut k: int = 0;
    let mut left: u64 = filled;
    let mut next: Option<SeqNo> = None;
    assert(all.skip(0) =~= all);
    while pending.len() > 0
        invariant_except_break
            pending@ == all.skip(k),
        invariant
            queue_in_range(all),
            all == old(pending)@,
            0 <= k <= all.len(),
            left == filled - samples_before(all, k),
            next == (if k == 0 {
                None
            } else {
                Some((all[k - 1].0 + 1) as u64)
            }),
        ensures
            0 <= k <= all.len(),
            drains(all, filled as int, k),
            pending@ == left_after(all, filled as int, k),
            next == (if k == 0 {
                None
            } else {
                Some((all[k - 1].0 + 1) as u64)
            }),
        decreases all.len() - k,
    {
        let (seq, rung, samples) = pending[0];
        assert((seq, rung, samples) == all[k]);
        if samples <= left {
            pending.pop_front();
            left = left - samples;
            next = Some(seq + 1);
            proof {
                k = k + 1;
                assert(pending@ =~= all.skip(k));
            }
        } else {
            pending.pop_front();
            pending.push_front((seq, rung, samples - left));
            assert(pending@ =~= left_after(all, filled as int, k));
            break;
        }
    }
    let rung: Option<RungId> = if pending.len() > 0 {
        pending[0].1
    } else {
        None
    };
    assert(queue_in_range(pending@)) by {
        assert forall|i: int| 0 <= i < pending@.len() implies (#[trigger] pending@[i]).0
            < u64::MAX by {
            assert(pending@[i].0 == all[k + i].0);
        }
    }
    match next {
        Some(seq) => Some((seq, rung)),
        None => None,
    }
}

/// How far into a segment the output is, in ms of its nominal length, with
/// `remaining` of its `segment_samples` still to be heard.
pub open spec fn elapsed_ms(remaining: u64, segment_samples: u64, segment_ms: u32) -> int {
    if segment_samples == 0 || remaining >= segment_samples {
        0
    } else {
        (segment_samples - remaining) * segment_ms / segment_samples as int
    }
}

/// How far into a segment the output is, in ms of its nominal length.
pub fn elapsed_ms_from_remaining(remaining: u64, segment_samples: u64, segment_ms: u32) -> (ms: u32)
    ensures
        ms == elapsed_ms(remaining, segment_samples, segment_ms),
        ms <= segment_ms,
{
    if segment_samples == 0 || remaining >= segment_samples {
        return 0;
    }
    let elapsed: u128 = (segment_samples - remaining) as u128;
    proof {
        let e = elapsed as int;
        let s = segment_samples as int;
        let m = segment_ms as int;
        assert(0 <= e * m <= s * m) by (nonlinear_arith)
            requires
                0 <= e <= s,
                0 <= m,
        ;
        assert(s * m <= 0xffff_ffff_ffff_ffff * 0xffff_ffff) by (nonlinear_arith)
            requires
                0 <= s <= 0xffff_ffff_ffff_ffff,
                0 <= m <= 0xffff_ffff,
        ;
        vstd::arithmetic::div_mod::lemma_div_is_ordered(e * m, s * m, s);
        vstd::arithmetic::div_mod::lemma_div_multiples_vanish(m, s);
        vstd::arithmetic::div_mod::lemma_div_pos_is_pos(e * m, s);
    }
    let ms: u128 = elapsed * segment_ms as u128 / segment_samples as u128;
    ms as u32
}

/// How long a segment may be missing before playout skips it: three segments.
pub fn stall_timeout(segment_ms: u32) -> (ms: u64)
    ensures
        ms == 3 * (if segment_ms == 0 {
            1
        } else {
            segment_ms as int
        }),
{
    if segment_ms == 0 {
        3
    } else {
        segment_ms as u64 * 3
    }
}

/// Interleaved samples in so many ms.
pub open spec fn samples_in(ms: u32, sample_rate: u32) -> int {
    ms * sample_rate / 1000 * CHANNELS
}

/// The arguments of the decoder process.
pub open spec fn decoder_line(sample_rate: u32) -> Seq<Seq<char>> {
    seq![
        "-hide_banner"@,
        "-loglevel"@,
        "error"@,
        "-fflags"@,
        "+genpts"@,
        "-f"@,
        "mpegts"@,
        "-i"@,
        "pipe:0"@,
        "-f"@,
        "f32le"@,
        "-ac"@,
        text::decimal(CHANNELS as nat),
        "-ar"@,
        text::decimal(sample_rate as nat),
        "-"@,
    ]
}

/// The arguments of the decoder process: a continuous transport stream in,
/// interleaved samples out.
pub fn decoder_args(sample_rate: u32) -> (args: Vec<String>)
    ensures
        encode::texts(args@) == decoder_line(sample_rate),
{
    let mut args: Vec<String> = Vec::new();
    assert(encode::texts(args@) =~= Seq::<Seq<char>>::empty());
    arg(&mut args, "-hide_banner");
    arg(&mut args, "-loglevel");
    arg(&mut args, "error");
    arg(&mut args, "-fflags");
    arg(&mut args, "+genpts");
    arg(&mut args, "-f");
    arg(&mut args, "mpegts");
    arg(&mut args, "-i");
    arg(&mut args, "pipe:0");
    arg(&mut args, "-f");
    arg(&mut args, "f32le");
    arg(&mut args, "-ac");
    let channels = decimal_text(CHANNELS);
    arg(&mut args, channels.as_str());
    arg(&mut args, "-ar");
    let rate = decimal_text(sample_rate as u64);
    arg(&mut args, rate.as_str());
    arg(&mut args, "-");
    args
}

/// Interleaved samples in so many ms.
pub fn samples_of(ms: u32, sample_rate: u32) -> (samples: u64)
    ensures
        samples == samples_in(ms, sample_rate),
{
    proof {
        let a = ms as int;
        let b = sample_rate as int;
        assert(0 <= a * b <= 0xffff_ffff * 0xffff_ffff) by (nonlinear_arith)
            requires
                0 <= a <= 0xffff_ffff,
                0 <= b <= 0xffff_ffff,
        ;
    }
    ms as u64 * sample_rate as u64 / 1000 * CHANNELS
}

/// Samples to drop from the segment that is fed next, so that playout starts
/// `skip_ms` into it, but always before its end.
pub open spec fn skipped_samples(skip_ms: u32, sample_rate: u32, segment_ms: u32) -> int {
    let segment = samples_in(
        if segment_ms == 0 {
            1
        } else {
            segment_ms
        },
        sample_rate,
    );
    let most = if segment < CHANNELS {
        0
    } else {
        segment - CHANNELS
    };
    let requested = samples_in(skip_ms, sample_rate);
    if requested < most {
        requested
    } else {
        most
    }
}

/// Samples to drop from the segment that is fed next, so that playout starts
/// `skip_ms` into it, but always before its end.
pub fn skip_samples(skip_ms: u32, sample_rate: u32, segment_ms: u32) -> (samples: u64)
    ensures
        samples == skipped_samples(skip_ms, sample_rate, segment_ms),
{
    let segment: u64 = samples_of(
        if segment_ms == 0 {
            1
        } else {
            segment_ms
        },
        sample_rate,
    );
    let requested: u64 = samples_of(skip_ms, sample_rate);
    let most: u64 = segment.saturating_sub(CHANNELS);
    if requested < most {
        requested
    } else {
        most
    }
}

/// Commands to the playout engine.
#[derive(Clone, Copy, Debug, PartialEq, Eq, Structural)]
pub enum EngineCommand {
    /// Starts output `skip_ms` into a segment.
    Start { position: SeqNo, skip_ms: u32 },
    Stop,
    Pause,
    Resume,
    /// Jumps to `skip_ms` into a segment.
    Seek { position: SeqNo, skip_ms: u32 },
    /// Linear gain in thousandths.
    SetVolume { gain_millis: u32 },
    SetTestTone { enabled: bool },
}

/// What happens to the hardware output stream.
#[derive(Clone, Copy, Debug, PartialEq, Eq, Structural)]
pub enum StreamAction {
    Keep,
    Play,
    Pause,
}

/// What a command asks of the hardware, in this order.
#[derive(Clone, Copy, Debug, PartialEq, Eq, Structural)]
pub struct EngineEffects {
    /// Tear the decoder down.
    pub stop_decoder: bool,
    pub stream: StreamAction,
    /// Drop what is queued in the output ring.
    pub flush_ring: bool,
    /// Start a decoder that drops so many samples first.
    pub start_decoder: Option<u64>,
}

/// What the feed loop does about the segment at its head.
#[derive(Clone, Copy, Debug, PartialEq, Eq, Structural)]
pub enum FeedDecision {
    /// Nothing to do.
    Idle,
    /// Feed the segment to the decoder.
    Feed { seq: SeqNo, rung: RungId },
    /// Wait for the segment.
    Wait { seq: SeqNo },
    /// The segment was given up by the encoder and is passed over.
    SkipAbandoned { seq: SeqNo },
    /// The segment did not come in time and is passed over.
    SkipMissing { seq: SeqNo },
}

/// State of the playout engine.
pub struct PlayoutHandle {
    running: bool,
    paused: bool,
    /// The audible segment.
    position: Option<SeqNo>,
    volume_millis: u32,
    test_tone: bool,
    segment_ms: u32,
    /// Rate of the output, 0 until the device is open.
    sample_rate: u32,
    /// The output is short of real audio.
    underrun: bool,
    /// Name of the open output device, empty until then.
    device_name: String,
    /// Why there is no output at all.
    device_error: Option<String>,
    /// Why the output is short.
    stall_reason: Option<String>,
    /// What was fed and not heard yet.
    pending: VecDeque<PendingSegment>,
    playing_rung: Option<RungId>,
    fed_seq: Option<SeqNo>,
    /// The segment to feed next.
    current: Option<SeqNo>,
    /// Since when that segment is missing.
    stall_since_ms: Option<u64>,
    /// Samples to drop from the segment to feed next.
    skip: u64,
}

/// The state of the playout engine as plain values.
pub ghost struct Playout {
    pub running: bool,
    pub paused: bool,
    pub position: Option<SeqNo>,
    pub volume_millis: u32,
    pub test_tone: bool,
    pub segment_ms: u32,
    pub sample_rate: u32,
    pub underrun: bool,
    pub device_name: Seq<char>,
    pub device_error: Option<Seq<char>>,
    pub stall_reason: Option<Seq<char>>,
    pub pending: Seq<PendingSegment>,
    pub playing_rung: Option<RungId>,
    pub fed_seq: Option<SeqNo>,
    pub current: Option<SeqNo>,
    pub stall_since_ms: Option<u64>,
    pub skip: u64,
}

/// A text that may be absent.
pub open spec fn maybe_text(text: Option<String>) -> Option<Seq<char>> {
    match text {
        Some(t) => Some(t@),
        None => None,
    }
}

/// A number between two pieces of text.
fn sentence(before: &str, n: u64, after: &str) -> (s: String)
    ensures
        s@ == before@ + text::decimal(n as nat) + after@,
{
    let mut s = String::new();
    s.append(before);
    push_decimal(&mut s, n);
    s.append(after);
    assert(s@ =~= before@ + text::decimal(n as nat) + after@);
    s
}

/// Copies a text that may be absent.
fn copy_text(text: &Option<String>) -> (copy: Option<String>)
    ensures
        copy == *text,
{
    match text {
        Some(t) => Some(t.clone()),
        None => None,
    }
}

impl View for PlayoutHandle {
    type V = Playout;

    closed spec fn view(&self) -> Playout {
        Playout {
            running: self.running,
            paused: self.paused,
            position: self.position,
            volume_millis: self.volume_millis,
            test_tone: self.test_tone,
            segment_ms: self.segment_ms,
            sample_rate: self.sample_rate,
            underrun: self.underrun,
            device_name: self.device_name@,
            device_error: maybe_text(self.device_error),
            stall_reason: maybe_text(self.stall_reason),
            pending: self.pending@,
            playing_rung: self.playing_rung,
            fed_seq: self.fed_seq,
            current: self.current,
            stall_since_ms: self.stall_since_ms,
            skip: self.skip,
        }
    }
}

impl Playout {
    /// Segments in play have successors.
    pub open spec fn in_range(self) -> bool {
        &&& queue_in_range(self.pending)
        &&& self.current matches Some(seq) ==> seq < u64::MAX
    }

    pub open spec fn state(self) -> PlayoutState {
        if self.device_error is Some {
            PlayoutState::Error
        } else if !self.running {
            PlayoutState::Stopped
        } else if self.paused {
            PlayoutState::Paused
        } else if self.underrun {
            PlayoutState::Stalled
        } else {
            PlayoutState::Playing
        }
    }

    pub open spec fn detail(self) -> Option<Seq<char>> {
        if self.device_error is Some {
            self.device_error
        } else if self.state() == PlayoutState::Stalled {
            self.stall_reason
        } else {
            None
        }
    }

    pub open spec fn ms_into_segment(self) -> int {
        if self.sample_rate == 0 || self.pending.len() == 0 {
            0
        } else {
            elapsed_ms(
                self.pending[0].2,
                samples_in(self.segment_ms, self.sample_rate) as u64,
                self.segment_ms,
            )
        }
    }

    /// `status` is what the engine reports.
    pub open spec fn reports(self, status: PlayoutStatus) -> bool {
        &&& status.state == self.state()
        &&& status.position_seq == self.position
        &&& status.playing_rung == self.playing_rung
        &&& status.fed_seq == self.fed_seq
        &&& status.position_ms_into_segment == self.ms_into_segment()
        &&& maybe_text(status.device) == (if self.device_name.len() == 0 {
            None
        } else {
            Some(self.device_name)
        })
        &&& status.volume_millis == self.volume_millis
        &&& maybe_text(status.detail) == self.detail()
        &&& status.test_tone == self.test_tone
    }

    /// After a jump to a position: nothing is fed or heard there yet.
    pub open spec fn jumped(self, position: SeqNo, skip_ms: u32) -> Playout {
        Playout {
            position: Some(position),
            current: Some(position),
            playing_rung: None,
            fed_seq: None,
            stall_since_ms: None,
            stall_reason: None,
            pending: Seq::empty(),
            skip: skipped_samples(skip_ms, self.sample_rate, self.segment_ms) as u64,
            ..self
        }
    }

    /// After a command.
    pub open spec fn after(self, cmd: EngineCommand) -> Playout {
        match cmd {
            EngineCommand::Start { position, skip_ms } => Playout {
                running: true,
                paused: false,
                underrun: true,
                ..self.jumped(position, skip_ms)
            },
            EngineCommand::Stop => Playout {
                running: false,
                position: None,
                current: None,
                playing_rung: None,
                fed_seq: None,
                stall_since_ms: None,
                stall_reason: None,
                pending: Seq::empty(),
                ..self
            },
            EngineCommand::Pause => Playout { paused: true, ..self },
            EngineCommand::Resume => Playout { paused: false, ..self },
            EngineCommand::Seek { position, skip_ms } => Playout {
                position: if self.running {
                    Some(position)
                } else {
                    None
                },
                ..self.jumped(position, skip_ms)
            },
            EngineCommand::SetVolume { gain_millis } => Playout {
                volume_millis: gain_millis,
                ..self
            },
            EngineCommand::SetTestTone { enabled } => Playout { test_tone: enabled, ..self },
        }
    }

    /// What a command asks of the hardware.
    pub open spec fn effects(self, cmd: EngineCommand) -> EngineEffects {
        let none = EngineEffects {
            stop_decoder: false,
            stream: StreamAction::Keep,
            flush_ring: false,
            start_decoder: None,
        };
        match cmd {
            EngineCommand::Start { position, skip_ms } => EngineEffects {
                stop_decoder: true,
                stream: StreamAction::Play,
                flush_ring: true,
                start_decoder: Some(
                    skipped_samples(skip_ms, self.sample_rate, self.segment_ms) as u64,
                ),
            },
            EngineCommand::Stop => EngineEffects {
                stop_decoder: true,
                stream: StreamAction::Pause,
                flush_ring: true,
                ..none
            },
            EngineCommand::Pause => EngineEffects { stream: StreamAction::Pause, ..none },
            EngineCommand::Resume => EngineEffects { stream: StreamAction::Play, ..none },
            EngineCommand::Seek { position, skip_ms } => EngineEffects {
                stop_decoder: true,
                flush_ring: true,
                start_decoder: Some(
                    skipped_samples(skip_ms, self.sample_rate, self.segment_ms) as u64,
                ),
                ..none
            },
            EngineCommand::SetVolume { gain_millis } => none,
            EngineCommand::SetTestTone { enabled } => if enabled {
                EngineEffects { stream: StreamAction::Play, ..none }
            } else if !self.running {
                EngineEffects { stream: StreamAction::Pause, ..none }
            } else {
                none
            },
        }
    }

    /// The head segment has been dealt with: the next one is up.
    pub open spec fn advanced(self, rung: Option<RungId>, samples: u64) -> Playout {
        let seq = self.current->0;
        Playout {
            pending: self.pending.push((seq, rung, samples)),
            fed_seq: Some(seq),
            current: Some((seq + 1) as u64),
            stall_since_ms: None,
            skip: 0,
            ..self
        }
    }

    /// The head segment has gone to the decoder, less what a jump drops of it.
    pub open spec fn after_feed(self, rung: RungId) -> Playout {
        let whole = samples_in(self.segment_ms, self.sample_rate);
        let samples = if whole < self.skip {
            0
        } else {
            whole - self.skip
        };
        Playout { stall_reason: None, ..self.advanced(Some(rung), samples as u64) }
    }

    /// `filled` of `wanted` samples have been heard, with which the first `k` segments
    /// that waited are over.
    pub open spec fn after_hearing(self, filled: u64, wanted: u64, k: int) -> Playout {
        Playout {
            underrun: filled < wanted,
            pending: left_after(self.pending, filled as int, k),
            position: match head_after(self.pending, k) {
                Some((seq, rung)) => Some(seq),
                None => self.position,
            },
            playing_rung: front_rung(left_after(self.pending, filled as int, k)),
            ..self
        }
    }

    /// The head segment has been missing for longer than playout waits.
    pub open spec fn waited_out(self, now_ms: u64) -> bool {
        self.stall_since_ms matches Some(since) && now_ms - since >= 3 * (if self.segment_ms == 0 {
            1
        } else {
            self.segment_ms as int
        })
    }

    /// What is done about the head segment, of which `found` is on disk.
    pub open spec fn decision(
        self,
        found: Option<RungId>,
        abandoned: bool,
        now_ms: u64,
    ) -> FeedDecision {
        match self.current {
            None => FeedDecision::Idle,
            Some(seq) => if !self.running || self.paused {
                FeedDecision::Idle
            } else if found is Some {
                FeedDecision::Feed { seq, rung: found->0 }
            } else if abandoned {
                FeedDecision::SkipAbandoned { seq }
            } else if self.waited_out(now_ms) {
                FeedDecision::SkipMissing { seq }
            } else {
                FeedDecision::Wait { seq }
            },
        }
    }

    /// After that decision has been taken.
    pub open spec fn decided(
        self,
        found: Option<RungId>,
        abandoned: bool,
        now_ms: u64,
    ) -> Playout {
        match self.decision(found, abandoned, now_ms) {
            FeedDecision::Idle => self,
            FeedDecision::Feed { seq, rung } => self,
            FeedDecision::SkipAbandoned { seq } => Playout {
                stall_reason: Some(abandoned_text(seq)),
                ..self.advanced(None, 0)
            },
            FeedDecision::SkipMissing { seq } => Playout {
                stall_reason: Some(missing_text(seq, self.segment_ms)),
                ..self.advanced(None, 0)
            },
            FeedDecision::Wait { seq } => Playout {
                stall_reason: Some(waiting_text(seq)),
                stall_since_ms: Some(
                    match self.stall_since_ms {
                        Some(since) => since,
                        None => now_ms,
                    },
                ),
                ..self
            },
        }
    }
}

pub open spec fn abandoned_text(seq: SeqNo) -> Seq<char> {
    "segment "@ + text::decimal(seq as nat) + " was abandoned by the encoder"@
}

pub open spec fn waiting_text(seq: SeqNo) -> Seq<char> {
    "waiting on segment "@ + text::decimal(seq as nat) + " from the encoder"@
}

pub open spec fn missing_text(seq: SeqNo, segment_ms: u32) -> Seq<char> {
    "segment "@ + text::decimal(seq as nat) + " missing for over "@ + text::decimal(
        (3 * (if segment_ms == 0 {
            1
        } else {
            segment_ms as int
        })) as nat,
    ) + "ms, skipped"@
}

impl PlayoutHandle {
    /// A stopped engine at full volume, with no device yet.
    pub fn new(segment_ms: u32) -> (handle: Self)
        ensures
            handle@ == (Playout {
                running: false,
                paused: false,
                position: None,
                volume_millis: 1000,
                test_tone: false,
                segment_ms,
                sample_rate: 0,
                underrun: false,
                device_name: Seq::empty(),
                device_error: None,
                stall_reason: None,
                pending: Seq::empty(),
                playing_rung: None,
                fed_seq: None,
                current: None,
                stall_since_ms: None,
                skip: 0,
            }),
            handle@.in_range(),
    {
        let handle = PlayoutHandle {
            running: false,
            paused: false,
            position: None,
            volume_millis: 1000,
            test_tone: false,
            segment_ms,
            sample_rate: 0,
            underrun: false,
            device_name: String::new(),
            device_error: None,
            stall_reason: None,
            pending: VecDeque::new(),
            playing_rung: None,
            fed_seq: None,
            current: None,
            stall_since_ms: None,
            skip: 0,
        };
        assert(handle@.device_name =~= Seq::empty());
        assert(handle@.pending =~= Seq::empty());
        handle
    }

    /// Name of the open output device.
    pub fn device_name(&self) -> (name: Option<String>)
        ensures
            maybe_text(name) == (if self@.device_name.len() == 0 {
                None
            } else {
                Some(self@.device_name)
            }),
    {
        if self.device_name.as_str().unicode_len() == 0 {
            None
        } else {
            Some(self.device_name.clone())
        }
    }

    /// The audible segment; none while stopped.
    pub fn position(&self) -> (seq: Option<SeqNo>)
        ensures
            seq == self@.position,
    {
        self.position
    }

    /// The rung of the audible segment, as it was fed.
    pub fn playing_rung(&self) -> (rung: Option<RungId>)
        ensures
            rung == self@.playing_rung,
    {
        self.playing_rung
    }

    /// The last segment that was fed or passed over.
    pub fn fed_seq(&self) -> (seq: Option<SeqNo>)
        ensures
            seq == self@.fed_seq,
    {
        self.fed_seq
    }

    /// How far into the audible segment the output is.
    pub fn ms_into_current_segment(&self) -> (ms: u32)
        ensures
            ms == self@.ms_into_segment(),
    {
        if self.sample_rate == 0 || self.pending.len() == 0 {
            return 0;
        }
        let (_, _, remaining) = self.pending[0];
        elapsed_ms_from_remaining(
            remaining,
            samples_of(self.segment_ms, self.sample_rate),
            self.segment_ms,
        )
    }

    pub fn playout_state(&self) -> (state: PlayoutState)
        ensures
            state == self@.state(),
    {
        if self.device_error.is_some() {
            PlayoutState::Error
        } else if !self.running {
            PlayoutState::Stopped
        } else if self.paused {
            PlayoutState::Paused
        } else if self.underrun {
            PlayoutState::Stalled
        } else {
            PlayoutState::Playing
        }
    }

    /// Why the engine is in error or stalled.
    pub fn detail(&self) -> (detail: Option<String>)
        ensures
            maybe_text(detail) == self@.detail(),
    {
        if self.device_error.is_some() {
            copy_text(&self.device_error)
        } else if self.running && !self.paused && self.underrun {
            copy_text(&self.stall_reason)
        } else {
            None
        }
    }

    /// Linear gain in thousandths.
    pub fn volume(&self) -> (millis: u32)
        ensures
            millis == self@.volume_millis,
    {
        self.volume_millis
    }

    pub fn test_tone(&self) -> (on: bool)
        ensures
            on == self@.test_tone,
    {
        self.test_tone
    }

    /// Output is wanted: the engine runs and is not paused.
    pub fn should_feed(&self) -> (b: bool)
        ensures
            b == (self@.running && !self@.paused),
    {
        self.running && !self.paused
    }

    /// The segment to feed next.
    pub fn feed_head(&self) -> (seq: Option<SeqNo>)
        ensures
            seq == self@.current,
    {
        self.current
    }

    /// Samples that a decoder started now has to drop first.
    pub fn pending_skip_samples(&self) -> (samples: u64)
        ensures
            samples == self@.skip,
    {
        self.skip
    }

    /// Status snapshot.
    pub fn status(&self) -> (status: PlayoutStatus)
        ensures
            self@.reports(status),
    {
        PlayoutStatus {
            state: self.playout_state(),
            position_seq: self.position,
            playing_rung: self.playing_rung,
            fed_seq: self.fed_seq,
            position_ms_into_segment: self.ms_into_current_segment(),
            device: self.device_name(),
            volume_millis: self.volume_millis,
            detail: self.detail(),
            test_tone: self.test_tone,
        }
    }

    /// The output device is open.
    pub fn device_opened(&mut self, name: String, sample_rate: u32)
        ensures
            final(self)@ == (Playout { device_name: name@, sample_rate, ..old(self)@ }),
    {
        self.device_name = name;
        self.sample_rate = sample_rate;
    }

    /// There is no output, or there is again.
    pub fn set_device_error(&mut self, error: Option<String>)
        ensures
            final(self)@ == (Playout { device_error: maybe_text(error), ..old(self)@ }),
    {
        self.device_error = error;
    }

    /// Takes a command.
    pub fn apply_command(&mut self, cmd: EngineCommand) -> (effects: EngineEffects)
        ensures
            final(self)@ == old(self)@.after(cmd),
            effects == old(self)@.effects(cmd),
    {
        let mut effects = EngineEffects {
            stop_decoder: false,
            stream: StreamAction::Keep,
            flush_ring: false,
            start_decoder: None,
        };
        match cmd {
            EngineCommand::Start { position, skip_ms } => {
                self.jump(position, skip_ms);
                self.running = true;
                self.paused = false;
                self.underrun = true;
                effects.stop_decoder = true;
                effects.stream = StreamAction::Play;
                effects.flush_ring = true;
                effects.start_decoder = Some(self.skip);
            },
            EngineCommand::Stop => {
                self.running = false;
                self.position = None;
                self.current = None;
                self.playing_rung = None;
                self.fed_seq = None;
                self.stall_since_ms = None;
                self.stall_reason = None;
                self.pending = VecDeque::new();
                assert(self@.pending =~= Seq::empty());
                effects.stop_decoder = true;
                effects.stream = StreamAction::Pause;
                effects.flush_ring = true;
            },
            EngineCommand::Pause => {
                self.paused = true;
                effects.stream = StreamAction::Pause;
            },
            EngineCommand::Resume => {
                self.paused = false;
                effects.stream = StreamAction::Play;
            },
            EngineCommand::Seek { position, skip_ms } => {
                self.jump(position, skip_ms);
                if !self.running {
                    self.position = None;
                }
                effects.stop_decoder = true;
                effects.flush_ring = true;
                effects.start_decoder = Some(self.skip);
            },
            EngineCommand::SetVolume { gain_millis } => {
                self.volume_millis = gain_millis;
            },
            EngineCommand::SetTestTone { enabled } => {
                self.test_tone = enabled;
                if enabled {
                    effects.stream = StreamAction::Play;
                } else if !self.running {
                    effects.stream = StreamAction::Pause;
                }
            },
        }
        effects
    }

    /// Jumps to a position: nothing is fed or heard there yet.
    fn jump(&mut self, position: SeqNo, skip_ms: u32)
        ensures
            final(self)@ == old(self)@.jumped(position, skip_ms),
    {
        self.position = Some(position);
        self.current = Some(position);
        self.playing_rung = None;
        self.fed_seq = None;
        self.stall_since_ms = None;
        self.stall_reason = None;
        self.pending = VecDeque::new();
        self.skip = skip_samples(skip_ms, self.sample_rate, self.segment_ms);
        assert(self@.pending =~= Seq::empty());
    }

    /// Takes note of what has become of a segment at the feed head.
    fn enqueue_pending(&mut self, seq: SeqNo, rung: Option<RungId>, samples: u64)
        ensures
            final(self)@ == (Playout {
                pending: old(self)@.pending.push((seq, rung, samples)),
                fed_seq: Some(seq),
                ..old(self)@
            }),
    {
        self.pending.push_back((seq, rung, samples));
        self.fed_seq = Some(seq);
    }

    /// Passes the segment at the feed head.
    fn advance(&mut self, seq: SeqNo, rung: Option<RungId>, samples: u64)
        requires
            old(self)@.current == Some(seq),
            seq < u64::MAX,
        ensures
            final(self)@ == old(self)@.advanced(rung, samples),
    {
        self.enqueue_pending(seq, rung, samples);
        self.current = Some(seq + 1);
        self.stall_since_ms = None;
        self.skip = 0;
    }

    /// Decides about the segment at the feed head, of which `found` is on disk.
    pub fn decide_feed(
        &mut self,
        found: Option<RungId>,
        abandoned: bool,
        now_ms: u64,
    ) -> (decision: FeedDecision)
        requires
            old(self)@.in_range(),
        ensures
            decision == old(self)@.decision(found, abandoned, now_ms),
            final(self)@ == old(self)@.decided(found, abandoned, now_ms),
    {
        let seq: SeqNo = match self.current {
            Some(seq) => seq,
            None => {
                return FeedDecision::Idle;
            },
        };
        if !self.running || self.paused {
            return FeedDecision::Idle;
        }
        if let Some(rung) = found {
            return FeedDecision::Feed { seq, rung };
        }
        if abandoned {
            self.advance(seq, None, 0);
            self.stall_reason = Some(sentence("segment ", seq, " was abandoned by the encoder"));
            return FeedDecision::SkipAbandoned { seq };
        }
        let timeout: u64 = stall_timeout(self.segment_ms);
        let waited_out = match self.stall_since_ms {
            Some(since) => now_ms >= since && now_ms - since >= timeout,
            None => false,
        };
        if waited_out {
            let mut reason = sentence("segment ", seq, " missing for over ");
            push_decimal(&mut reason, timeout);
            reason.append("ms, skipped");
            self.advance(seq, None, 0);
            self.stall_reason = Some(reason);
            FeedDecision::SkipMissing { seq }
        } else {
            if self.stall_since_ms.is_none() {
                self.stall_since_ms = Some(now_ms);
            }
            self.stall_reason = Some(sentence("waiting on segment ", seq, " from the encoder"));
            FeedDecision::Wait { seq }
        }
    }

    /// The segment at the feed head has gone to the decoder.
    pub fn fed(&mut self, rung: RungId)
        requires
            old(self)@.in_range(),
            old(self)@.current is Some,
        ensures
            final(self)@ == old(self)@.after_feed(rung),
    {
        if let Some(seq) = self.current {
            let whole: u64 = samples_of(self.segment_ms, self.sample_rate);
            let samples: u64 = whole.saturating_sub(self.skip);
            self.advance(seq, Some(rung), samples);
            self.stall_reason = None;
        }
    }

    /// The segment at the feed head could not be fed; it stays there.
    pub fn feed_failed(&mut self, error: &str)
        ensures
            final(self)@ == (Playout {
                stall_reason: match old(self)@.current {
                    Some(seq) => Some(
                        "segment "@ + text::decimal(seq as nat) + " failed to decode: "@ + error@,
                    ),
                    None => old(self)@.stall_reason,
                },
                ..old(self)@
            }),
    {
        if let Some(seq) = self.current {
            let mut reason = sentence("segment ", seq, " failed to decode: ");
            reason.append(error);
            self.stall_reason = Some(reason);
        }
    }

    /// The output callback has played `filled` real samples of the `wanted`
    /// ones.
    pub fn played(&mut self, filled: u64, wanted: u64)
        requires
            old(self)@.in_range(),
        ensures
            exists|k: int|
                {
                    &&& #[trigger] drains(old(self)@.pending, filled as int, k)
                    &&& final(self)@ == old(self)@.after_hearing(filled, wanted, k)
                },
            final(self)@.in_range(),
    {
        self.underrun = filled < wanted;
        self.drain_pending(filled);
    }

    /// The output callback plays the test tone: nothing is short.
    pub fn playing_tone(&mut self)
        ensures
            final(self)@ == (Playout { underrun: false, ..old(self)@ }),
    {
        self.underrun = false;
    }

    /// Takes note that `filled` samples have been heard.
    fn drain_pending(&mut self, filled: u64)
        requires
            old(self)@.in_range(),
        ensures
            exists|k: int|
                {
                    &&& #[trigger] drains(old(self)@.pending, filled as int, k)
                    &&& final(self)@ == (Playout {
                        pending: left_after(old(self)@.pending, filled as int, k),
                        position: match head_after(old(self)@.pending, k) {
                            Some((seq, rung)) => Some(seq),
                            None => old(self)@.position,
                        },
                        playing_rung: front_rung(left_after(old(self)@.pending, filled as int, k)),
                        ..old(self)@
                    })
                },
            final(self)@.in_range(),
    {
        if let Some((seq, _)) = advance_pending(&mut self.pending, filled) {
            self.position = Some(seq);
        }
        self.playing_rung = if self.pending.len() == 0 {
            None
        } else {
            self.pending[0].1
        };
    }
}

/// The rung of a segment to play: the last of `rungs` that is on disk, else the
/// first of them.
pub open spec fn is_rung_to_play(
    held: store::Holdings,
    rungs: Seq<RungId>,
    seq: SeqNo,
    rung: Option<RungId>,
) -> bool {
    let on_disk = |i: int| held.contains_key(seq) && held[seq].contains(rungs[i]);
    if rungs.len() == 0 {
        rung is None
    } else if exists|i: int| 0 <= i < rungs.len() && #[trigger] on_disk(i) {
        exists|i: int|
            {
                &&& 0 <= i < rungs.len()
                &&& #[trigger] on_disk(i)
                &&& rung == Some(rungs[i])
                &&& forall|j: int| i < j < rungs.len() ==> !#[trigger] on_disk(j)
            }
    } else {
        rung == Some(rungs[0])
    }
}

/// The file of a segment to play, with its rung: that of the last of `rungs`
/// that is on disk, else of the first of them. Whether the file is there is for
/// the caller to see.
pub fn best_available_path(store: &DvrStore, rungs: &[RungId], seq: SeqNo) -> (found: Option<
    (String, RungId),
>)
    ensures
        is_rung_to_play(
            store.held(),
            rungs@,
            seq,
            match found {
                Some((path, rung)) => Some(rung),
                None => None,
            },
        ),
        found matches Some((path, rung)) ==> path@ == store::segment_file(store.dir(), rung, seq),
{
    if rungs.len() == 0 {
        return None;
    }
    let ghost on_disk = |i: int|
        store.held().contains_key(seq) && store.held()[seq].contains(rungs@[i]);
    let mut i: usize = rungs.len();
    while i > 0
        invariant
            i <= rungs@.len(),
            on_disk == (|i: int|
                store.held().contains_key(seq) && store.held()[seq].contains(rungs@[i])),
            forall|j: int| i <= j < rungs@.len() ==> !#[trigger] on_disk(j),
        decreases i,
    {
        i = i - 1;
        if store.has_rung(seq, rungs[i]) {
            assert(on_disk(i as int));
            return Some((store.segment_path(rungs[i], seq), rungs[i]));
        }
    }
    Some((store.segment_path(rungs[0], seq), rungs[0]))
}

/// Raw decoder output as it arrives: whole samples are handed on, but for those
/// at the start that a jump into a segment drops.
pub struct PcmFramer {
    /// Bytes of a sample that is not complete yet.
    leftover: Vec<u8>,
    /// Samples still to be dropped.
    skip_remaining: u64,
}

/// Bytes in one sample.
pub const SAMPLE_BYTES: usize = 4;

/// Four bytes as a number, lowest first.
pub open spec fn le_u32(b: Seq<u8>, at: int) -> int {
    b[at] + 256 * b[at + 1] + 65536 * b[at + 2] + 16777216 * b[at + 3]
}

/// The whole samples in a run of bytes, from sample `from` on.
pub open spec fn whole_samples(bytes: Seq<u8>, from: int) -> Seq<u32> {
    let n = bytes.len() / 4;
    if from >= n {
        Seq::empty()
    } else {
        Seq::new((n - from) as nat, |i: int| le_u32(bytes, 4 * (from + i)) as u32)
    }
}

impl PcmFramer {
    pub closed spec fn held_back(&self) -> Seq<u8> {
        self.leftover@
    }

    pub closed spec fn to_skip(&self) -> u64 {
        self.skip_remaining
    }

    /// A framer that drops so many samples first.
    pub fn new(skip_samples: u64) -> (framer: Self)
        ensures
            framer.held_back().len() == 0,
            framer.to_skip() == skip_samples,
    {
        PcmFramer { leftover: Vec::new(), skip_remaining: skip_samples }
    }

    /// Takes bytes, and returns the bits of the samples that are complete.
    pub fn push(&mut self, bytes: &[u8]) -> (samples: Vec<u32>)
        requires
            old(self).held_back().len() < 4,
        ensures
            ({
                let all = old(self).held_back() + bytes@;
                let n = all.len() / 4;
                let skip = old(self).to_skip();
                &&& final(self).held_back() == all.skip(4 * n as int)
                &&& final(self).to_skip() == (if skip < n {
                    0
                } else {
                    skip - n
                })
                &&& samples@ == whole_samples(all, skip as int)
            }),
            final(self).held_back().len() < 4,
    {
        let ghost all = self.leftover@ + bytes@;
        let mut data: Vec<u8> = Vec::new();
        let mut i: usize = 0;
        while i < self.leftover.len()
            invariant
                i <= self.leftover@.len(),
                data@ == self.leftover@.take(i as int),
            decreases self.leftover@.len() - i,
        {
            data.push(self.leftover[i]);
            i = i + 1;
        }
        assert(data@ =~= self.leftover@);
        let mut i: usize = 0;
        let ghost first = data@;
        while i < bytes.len()
            invariant
                i <= bytes@.len(),
                data@ == first + bytes@.take(i as int),
            decreases bytes@.len() - i,
        {
            data.push(bytes[i]);
            i = i + 1;
        }
        assert(data@ =~= all);
        let count: usize = data.len() / 4;
        let mut samples: Vec<u32> = Vec::new();
        let first_kept: usize = if self.skip_remaining < count as u64 {
            self.skip_remaining as usize
        } else {
            count
        };
        let mut k: usize = first_kept;
        while k < count
            invariant
                data@ == all,
                all.len() <= usize::MAX,
                count == all.len() / 4,
                first_kept <= k <= count,
                samples@.len() == k - first_kept,
                forall|j: int|
                    0 <= j < samples@.len() ==> #[trigger] samples@[j] == le_u32(
                        all,
                        4 * (first_kept + j),
                    ) as u32,
            decreases count - k,
        {
            let at: usize = 4 * k;
            let value: u32 = data[at] as u32 + 256 * data[at + 1] as u32 + 65536 * data[at
                + 2] as u32 + 16777216 * data[at + 3] as u32;
            samples.push(value);
            k = k + 1;
        }
        assert(samples@ =~= whole_samples(all, old(self).to_skip() as int));
        self.skip_remaining = self.skip_remaining - first_kept as u64;
        let mut leftover: Vec<u8> = Vec::new();
        let mut i: usize = 4 * count;
        while i < data.len()
            invariant
                data@ == all,
                4 * count <= i <= all.len(),
                leftover@ == all.subrange(4 * count, i as int),
            decreases all.len() - i,
        {
            leftover.push(data[i]);
            assert(all.subrange(4 * count, i + 1) =~= all.subrange(4 * count, i as int).push(
                all[i as int],
            ));
            i = i + 1;
        }
        assert(all.subrange(4 * count, i as int) =~= all.skip(4 * count));
        self.leftover = leftover;
        samples
    }
}

} // verus!
