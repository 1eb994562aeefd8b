//! What holds of playout.

use vstd::prelude::*;

use crate::playout::{self, EngineCommand, FeedDecision, PendingSegment, Playout, StreamAction};
use crate::state::{PlayoutState, PlayoutStatus, RungId, SeqNo};
use crate::{store, text};

verus! {

/// Samples in the whole queue.
pub open spec fn queued(pending: Seq<PendingSegment>) -> int {
    playout::samples_before(pending, pending.len() as int)
}

/// Samples in the first `n` entries of what is left of a queue.
proof fn lemma_left_samples(pending: Seq<PendingSegment>, filled: int, k: int, n: int)
    requires
        playout::drains(pending, filled, k),
        k < pending.len(),
        1 <= n <= pending.len() - k,
    ensures
        playout::samples_before(playout::left_after(pending, filled, k), n)
            == playout::samples_before(pending, k + n) - filled,
    decreases n,
{
    let left = playout::left_after(pending, filled, k);
    playout::lemma_samples_grow(pending, 0, k);
    if n == 1 {
        assert(playout::samples_before(left, 0) == 0);
        assert(playout::samples_before(pending, k + 1) == playout::samples_before(pending, k)
            + pending[k].2);
        assert(left[0].2 == pending[k].2 - (filled - playout::samples_before(pending, k)));
    } else {
        lemma_left_samples(pending, filled, k, n - 1);
        assert(left[n - 1] == pending[k + n - 1]);
    }
}

/// Draining takes exactly the samples that were heard off the queue, or all of
/// them if there were fewer.
pub proof fn law_draining_conserves_samples(pending: Seq<PendingSegment>, filled: int, k: int)
    requires
        playout::drains(pending, filled, k),
    ensures
        queued(playout::left_after(pending, filled, k)) == (if filled < queued(pending) {
            queued(pending) - filled
        } else {
            0
        }),
{
    if k < pending.len() {
        lemma_left_samples(pending, filled, k, pending.len() - k);
        playout::lemma_samples_grow(pending, k + 1, pending.len() as int);
    }
}

/// What has been heard leaves one queue and one head: at most one number of
/// entries is over.
pub proof fn law_draining_has_one_outcome(pending: Seq<PendingSegment>, filled: int, a: int, b: int)
    requires
        playout::drains(pending, filled, a),
        playout::drains(pending, filled, b),
    ensures
        a == b,
{
    if a < b {
        playout::lemma_samples_grow(pending, a + 1, b);
    } else if b < a {
        playout::lemma_samples_grow(pending, b + 1, a);
    }
}

/// Draining in two steps is draining in one.
pub proof fn law_draining_composes(
    pending: Seq<PendingSegment>,
    first: int,
    second: int,
    k: int,
    j: int,
)
    requires
        0 <= second,
        playout::drains(pending, first, k),
        playout::drains(playout::left_after(pending, first, k), second, j),
    ensures
        playout::drains(pending, first + second, k + j),
        playout::left_after(pending, first + second, k + j) == playout::left_after(
            playout::left_after(pending, first, k),
            second,
            j,
        ),
{
    let left = playout::left_after(pending, first, k);
    if k < pending.len() {
        assert(left.len() == pending.len() - k);
        if j > 0 {
            lemma_left_samples(pending, first, k, j);
        }
        if j < left.len() {
            lemma_left_samples(pending, first, k, j + 1);
        }
        let both = playout::left_after(pending, first + second, k + j);
        let twice = playout::left_after(left, second, j);
        assert(both =~= twice) by {
            if j < left.len() {
                if j > 0 {
                    assert(left[j] == pending[k + j]);
                } else {
                    assert(playout::samples_before(left, 0) == 0);
                }
                assert(pending.skip(k + j + 1) =~= left.skip(j + 1));
            }
        }
    } else {
        assert(left.len() == 0);
        assert(j == 0);
    }
}

/// The head never moves past a segment of which a sample is still unheard.
pub proof fn law_position_waits_for_the_last_sample(
    pending: Seq<PendingSegment>,
    filled: int,
    k: int,
    seq: SeqNo,
    rung: Option<RungId>,
)
    requires
        playout::queue_in_range(pending),
        playout::drains(pending, filled, k),
        playout::head_after(pending, k) == Some((seq, rung)),
    ensures
        0 < k <= pending.len(),
        seq == pending[k - 1].0 + 1,
        playout::samples_before(pending, k) <= filled,
        k < pending.len() ==> rung == pending[k].1,
        k == pending.len() ==> rung is None,
{
}

/// A jump into a segment always lands before its end.
pub proof fn law_skip_stays_within_the_segment(skip_ms: u32, sample_rate: u32, segment_ms: u32)
    requires
        segment_ms > 0,
        playout::samples_in(segment_ms, sample_rate) >= playout::CHANNELS,
    ensures
        0 <= playout::skipped_samples(skip_ms, sample_rate, segment_ms) < playout::samples_in(
            segment_ms,
            sample_rate,
        ),
{
    assert(skip_ms * sample_rate >= 0) by (nonlinear_arith);
}

/// The test tone changes nothing about playout itself.
pub proof fn law_test_tone_leaves_playout_alone(p: Playout, enabled: bool)
    ensures
        ({
            let q = p.after(EngineCommand::SetTestTone { enabled });
            &&& q.state() == p.state()
            &&& q.position == p.position
            &&& q.current == p.current
            &&& q.pending == p.pending
            &&& q.test_tone == enabled
        }),
{
}

/// An engine that has been stopped reports no position, no rung, no feed boundary,
/// no offset into a segment and no reason but that of a device failure.
pub proof fn law_stopped_reports_nothing(p: Playout)
    ensures
        ({
            let q = p.after(EngineCommand::Stop);
            &&& q.position is None
            &&& q.playing_rung is None
            &&& q.fed_seq is None
            &&& q.pending.len() == 0
            &&& q.ms_into_segment() == 0
            &&& q.detail() == p.device_error
            &&& p.device_error is None ==> q.state() == PlayoutState::Stopped
        }),
{
}

/// Unless the engine runs, nothing waits to be heard and nothing is reported.
pub open spec fn quiet_when_stopped(p: Playout) -> bool {
    !p.running ==> {
        &&& p.pending.len() == 0
        &&& p.position is None
        &&& p.playing_rung is None
        &&& p.fed_seq is None
    }
}

/// While stopped nothing waits to be heard and nothing is reported: every command
/// and every look at the feed head keeps it so, and the output has nothing to
/// drain.
pub proof fn law_nothing_goes_on_while_stopped(
    p: Playout,
    cmd: EngineCommand,
    found: Option<RungId>,
    abandoned: bool,
    now_ms: u64,
    filled: int,
    k: int,
)
    requires
        quiet_when_stopped(p),
    ensures
        quiet_when_stopped(p.after(cmd)),
        quiet_when_stopped(p.decided(found, abandoned, now_ms)),
        !p.running ==> p.ms_into_segment() == 0,
        !p.running ==> !(p.decision(found, abandoned, now_ms) is Feed),
        !p.running && playout::drains(p.pending, filled, k) ==> {
            &&& playout::left_after(p.pending, filled, k).len() == 0
            &&& playout::head_after(p.pending, k) is None
            &&& playout::front_rung(playout::left_after(p.pending, filled, k)) is None
        },
{
}

/// A reason is given for an error and for a stall, and in no other state.
pub proof fn law_reasons_are_for_errors_and_stalls(p: Playout)
    requires
        p.detail() is Some,
    ensures
        p.state() == PlayoutState::Error || p.state() == PlayoutState::Stalled,
{
}

/// The rung that was fed for a segment is what is on air while the segment drains,
/// from the first segment after a jump on.
pub proof fn law_the_fed_rung_is_on_air(p: Playout, rung: RungId, samples: u64, filled: int, k: int)
    requires
        p.current is Some,
        p.pending.len() == 0,
        0 <= filled < samples,
        playout::drains(p.advanced(Some(rung), samples).pending, filled, k),
    ensures
        playout::front_rung(
            playout::left_after(p.advanced(Some(rung), samples).pending, filled, k),
        ) == Some(rung),
        playout::head_after(p.advanced(Some(rung), samples).pending, k) is None,
{
    let pending = p.advanced(Some(rung), samples).pending;
    assert(playout::samples_before(pending, 0) == 0);
    assert(playout::samples_before(pending, 1) == samples);
}

/// After a jump of a running engine the position is the target at once, and what
/// was queued for the old position is forgotten.
pub proof fn law_seek_takes_effect_at_once(p: Playout, position: SeqNo, skip_ms: u32)
    ensures
        ({
            let q = p.after(EngineCommand::Seek { position, skip_ms });
            &&& p.running ==> q.position == Some(position)
            &&& q.current == Some(position)
            &&& q.fed_seq is None
            &&& q.pending.len() == 0
            &&& q.state() == p.state()
        }),
{
}

/// A device failure outranks every other state.
pub proof fn law_device_error_is_reported(p: Playout)
    requires
        p.device_error is Some,
    ensures
        p.state() == PlayoutState::Error,
        p.detail() == p.device_error,
{
}

/// A missing segment never blocks the head for longer than the timeout.
pub proof fn law_missing_segment_is_passed(p: Playout, seq: SeqNo, since: u64, now_ms: u64)
    requires
        p.running && !p.paused,
        p.current == Some(seq),
        seq < u64::MAX,
        p.stall_since_ms == Some(since),
        now_ms >= since + 3 * p.segment_ms,
        now_ms >= since + 3,
    ensures
        p.decision(None, false, now_ms) == (FeedDecision::SkipMissing { seq }),
        p.decided(None, false, now_ms).current == Some((seq + 1) as u64),
{
}

/// Until then it is waited for: the head stays.
pub proof fn law_missing_segment_is_waited_for(p: Playout, seq: SeqNo, now_ms: u64)
    requires
        p.running && !p.paused,
        p.current == Some(seq),
        p.stall_since_ms matches Some(since) ==> now_ms < since + 3 * p.segment_ms,
    ensures
        p.decision(None, false, now_ms) == (FeedDecision::Wait { seq }),
        p.decided(None, false, now_ms).current == Some(seq),
        p.decided(None, false, now_ms).pending == p.pending,
{
}

/// A segment that the encoder gave up on is passed at once.
pub proof fn law_abandoned_segment_is_passed_at_once(p: Playout, seq: SeqNo, now_ms: u64)
    requires
        p.running && !p.paused,
        p.current == Some(seq),
        seq < u64::MAX,
    ensures
        p.decided(None, true, now_ms).current == Some((seq + 1) as u64),
        p.decided(None, true, now_ms).fed_seq == Some(seq),
{
}

/// How far a jump went into a segment shows as soon as the segment is fed.
pub proof fn law_skip_shows_as_elapsed(p: Playout, position: SeqNo, skip_ms: u32, rung: RungId)
    requires
        p.sample_rate > 0,
        p.segment_ms > 0,
        playout::samples_in(p.segment_ms, p.sample_rate) >= playout::CHANNELS,
    ensures
        ({
            let whole = playout::samples_in(p.segment_ms, p.sample_rate);
            let jumped = p.after(EngineCommand::Seek { position, skip_ms });
            let fed = jumped.after_feed(rung);
            fed.ms_into_segment() == jumped.skip * p.segment_ms / whole
        }),
{
    law_skip_stays_within_the_segment(skip_ms, p.sample_rate, p.segment_ms);
    let whole = playout::samples_in(p.segment_ms, p.sample_rate);
    let jumped = p.after(EngineCommand::Seek { position, skip_ms });
    let fed = jumped.after_feed(rung);
    let ms = p.segment_ms as int;
    let rate = p.sample_rate as int;
    assert(0 <= ms * rate <= 0xffff_ffff * 0xffff_ffff) by (nonlinear_arith)
        requires
            0 <= ms <= 0xffff_ffff,
            0 <= rate <= 0xffff_ffff,
    ;
    assert(fed.pending[0] == (position, Some(rung), (whole - jumped.skip) as u64));
    assert(whole - (whole - jumped.skip) == jumped.skip);
    if jumped.skip == 0 {
        assert(jumped.skip * p.segment_ms == 0) by (nonlinear_arith)
            requires
                jumped.skip == 0,
        ;
        assert(0int / whole == 0) by (nonlinear_arith)
            requires
                whole > 0,
        ;
    }
}

/// Where the decoder's output is cut into chunks makes no difference to its
/// samples, nor to what is held back.
pub proof fn law_pcm_chunks_do_not_matter(first: Seq<u8>, second: Seq<u8>, skip: int)
    requires
        0 <= skip,
    ensures
        ({
            let n = first.len() as int / 4;
            let rest = first.skip(4 * n) + second;
            let later_skip = if skip < n {
                0
            } else {
                skip - n
            };
            let all = first + second;
            &&& playout::whole_samples(all, skip) == playout::whole_samples(first, skip)
                + playout::whole_samples(rest, later_skip)
            &&& all.skip(4 * (all.len() as int / 4)) == rest.skip(4 * (rest.len() as int / 4))
        }),
{
    let n = first.len() as int / 4;
    let rest = first.skip(4 * n) + second;
    let later_skip = if skip < n {
        0
    } else {
        skip - n
    };
    let all = first + second;
    let early = playout::whole_samples(first, skip);
    let late = playout::whole_samples(rest, later_skip);
    let samples = playout::whole_samples(all, skip);
    assert forall|i: int| 0 <= i < samples.len() implies samples[i] == (early + late)[i] by {
        let at = 4 * (skip + i);
        if i < early.len() {
            assert(all[at] == first[at] && all[at + 1] == first[at + 1] && all[at + 2] == first[at
                + 2] && all[at + 3] == first[at + 3]);
        } else {
            let b = at - 4 * n;
            assert(all[at] == rest[b] && all[at + 1] == rest[b + 1] && all[at + 2] == rest[b + 2]
                && all[at + 3] == rest[b + 3]);
            assert(4 * (later_skip + (i - early.len())) == b);
        }
    }
    assert(samples =~= early + late);
    assert(all.skip(4 * (all.len() as int / 4)) =~= rest.skip(4 * (rest.len() as int / 4)));
}

/// The hardware output plays after an action, given whether it played before.
pub open spec fn sounds_after(sounding: bool, action: StreamAction) -> bool {
    match action {
        StreamAction::Keep => sounding,
        StreamAction::Play => true,
        StreamAction::Pause => false,
    }
}

/// The engine after a list of commands.
pub open spec fn after_all(p: Playout, cmds: Seq<EngineCommand>) -> Playout
    decreases cmds.len(),
{
    if cmds.len() == 0 {
        p
    } else {
        after_all(p, cmds.drop_last()).after(cmds.last())
    }
}

/// The hardware output plays after what a list of commands has asked of it, one
/// command after the other.
pub open spec fn sounds_after_all(p: Playout, sounding: bool, cmds: Seq<EngineCommand>) -> bool
    decreases cmds.len(),
{
    if cmds.len() == 0 {
        sounding
    } else {
        sounds_after(
            sounds_after_all(p, sounding, cmds.drop_last()),
            after_all(p, cmds.drop_last()).effects(cmds.last()).stream,
        )
    }
}

/// Whatever commands an engine has been given: while it runs and is not paused, its
/// hardware output plays.
pub proof fn law_a_running_engine_is_heard(p: Playout, sounding: bool, cmds: Seq<EngineCommand>)
    requires
        p.running && !p.paused ==> sounding,
    ensures
        after_all(p, cmds).running && !after_all(p, cmds).paused ==> sounds_after_all(
            p,
            sounding,
            cmds,
        ),
    decreases cmds.len(),
{
    if cmds.len() > 0 {
        law_a_running_engine_is_heard(p, sounding, cmds.drop_last());
    }
}

/// Whatever came before: a start and a resumption end with the hardware output
/// playing, a pause and a stop with it silent. So pausing and resuming is heard
/// again.
pub proof fn law_the_last_command_decides_what_is_heard(
    p: Playout,
    sounding: bool,
    cmds: Seq<EngineCommand>,
)
    requires
        cmds.len() > 0,
    ensures
        cmds.last() is Start || cmds.last() is Resume ==> sounds_after_all(p, sounding, cmds),
        cmds.last() is Pause || cmds.last() is Stop ==> !sounds_after_all(p, sounding, cmds),
        cmds.last() is Seek || cmds.last() is SetVolume ==> sounds_after_all(p, sounding, cmds)
            == sounds_after_all(p, sounding, cmds.drop_last()),
{
}

/// The test tone is heard once it is on, whether the engine runs or not. Switching
/// it off silences an engine that does not run, and none that does.
pub proof fn law_the_test_tone_is_heard(p: Playout, sounding: bool)
    ensures
        sounds_after(sounding, p.effects(EngineCommand::SetTestTone { enabled: true }).stream),
        sounds_after(sounding, p.effects(EngineCommand::SetTestTone { enabled: false }).stream)
            == (p.running && sounding),
{
}

/// Pausing loses nothing: resumed, the engine is where it was.
pub proof fn law_resuming_undoes_pausing(p: Playout)
    requires
        !p.paused,
    ensures
        p.after(EngineCommand::Pause).after(EngineCommand::Resume) == p,
        p.running && p.device_error is None ==> p.after(EngineCommand::Pause).state()
            == PlayoutState::Paused,
{
}

/// Nothing of an old position is heard at a new one: whenever a command changes what
/// waits to be heard or what is fed next, the decoder is torn down and the ring is
/// emptied, and the decoder that is started then begins where the jump went. No
/// command tears the decoder of a running engine down and leaves it without one.
pub proof fn law_a_jump_leaves_nothing_behind(p: Playout, cmd: EngineCommand)
    ensures
        ({
            let q = p.after(cmd);
            let e = p.effects(cmd);
            &&& q.pending != p.pending || q.current != p.current ==> e.stop_decoder && e.flush_ring
            &&& e.flush_ring ==> q.pending.len() == 0 && q.fed_seq is None && q.playing_rung is None
                && q.stall_since_ms is None && q.stall_reason is None
            &&& e.flush_ring <==> e.stop_decoder
            &&& e.start_decoder matches Some(samples) ==> samples == q.skip && e.stop_decoder
            &&& q.running && e.stop_decoder ==> e.start_decoder is Some && q.current is Some
        }),
{
}

/// A command does what it is named for and leaves the rest: volume and tone follow
/// their own commands only, and only a start sets a stopped engine running.
pub proof fn law_commands_keep_to_themselves(p: Playout, cmd: EngineCommand)
    ensures
        ({
            let q = p.after(cmd);
            &&& q.volume_millis == (if let EngineCommand::SetVolume { gain_millis } = cmd {
                gain_millis
            } else {
                p.volume_millis
            })
            &&& q.test_tone == (if let EngineCommand::SetTestTone { enabled } = cmd {
                enabled
            } else {
                p.test_tone
            })
            &&& cmd is Start ==> q.running && !q.paused
            &&& cmd is Stop ==> !q.running
            &&& !(cmd is Start || cmd is Stop) ==> q.running == p.running
            &&& cmd is Pause ==> q.paused
            &&& cmd is Resume ==> !q.paused
            &&& cmd is Seek || cmd is SetVolume || cmd is SetTestTone ==> q.paused == p.paused
                && q.underrun == p.underrun
            &&& q.segment_ms == p.segment_ms && q.sample_rate == p.sample_rate
            &&& q.device_name == p.device_name && q.device_error == p.device_error
        }),
{
}

/// What waits to be heard and what is fed next follow one another without a break,
/// and the reported position is that of the first segment that is not over.
pub open spec fn in_step(p: Playout) -> bool {
    p.running ==> {
        &&& p.current is Some
        &&& forall|i: int|
            0 <= i < p.pending.len() ==> (#[trigger] p.pending[i]).0 + (p.pending.len() - i)
                == p.current->0
        &&& p.position == Some(
            if p.pending.len() == 0 {
                p.current->0
            } else {
                p.pending[0].0
            },
        )
        &&& p.pending.len() > 0 ==> p.fed_seq == Some(p.pending.last().0)
    }
}

/// The reported position is that of the audible segment, from the first start on:
/// every command keeps it so.
pub proof fn law_commands_keep_the_position_in_step(p: Playout, cmd: EngineCommand)
    requires
        in_step(p),
    ensures
        in_step(p.after(cmd)),
{
}

/// Feeding a segment and passing one over keep the position where it is heard, and
/// move the feed on by exactly one segment.
pub proof fn law_feeding_keeps_the_position_in_step(
    p: Playout,
    rung: RungId,
    found: Option<RungId>,
    abandoned: bool,
    now_ms: u64,
)
    requires
        p.in_range(),
        in_step(p),
        p.running,
    ensures
        in_step(p.after_feed(rung)),
        in_step(p.decided(found, abandoned, now_ms)),
        p.after_feed(rung).position == p.position,
        p.decided(found, abandoned, now_ms).position == p.position,
        p.after_feed(rung).current == Some((p.current->0 + 1) as u64),
        p.after_feed(rung).fed_seq == p.current,
        p.after_feed(rung).pending.drop_last() == p.pending,
        p.after_feed(rung).pending.last().0 == p.current->0,
        p.after_feed(rung).pending.last().1 == Some(rung),
        p.decided(found, abandoned, now_ms).current != p.current ==> {
            let q = p.decided(found, abandoned, now_ms);
            &&& q.current == Some((p.current->0 + 1) as u64)
            &&& q.fed_seq == p.current
            &&& q.pending == p.pending.push((p.current->0, None, 0u64))
        },
{
    let whole = playout::samples_in(p.segment_ms, p.sample_rate);
    let samples = if whole < p.skip {
        0
    } else {
        whole - p.skip
    };
    lemma_advanced_in_step(p, Some(rung), samples as u64);
    lemma_advanced_in_step(p, None, 0);
    assert(p.after_feed(rung).pending.drop_last() =~= p.pending);
}

proof fn lemma_advanced_in_step(p: Playout, rung: Option<RungId>, samples: u64)
    requires
        p.in_range(),
        in_step(p),
        p.running,
    ensures
        in_step(p.advanced(rung, samples)),
        p.advanced(rung, samples).position == p.position,
{
    let q = p.advanced(rung, samples);
    assert forall|i: int| 0 <= i < q.pending.len() implies (#[trigger] q.pending[i]).0 + (
    q.pending.len() - i) == q.current->0 by {
        if i < p.pending.len() {
            assert(q.pending[i] == p.pending[i]);
        }
    }
    if p.pending.len() > 0 {
        assert(q.pending[0] == p.pending[0]);
    }
}

/// Hearing samples keeps the position in step: it moves exactly over the segments
/// that are over, and is that of the feed once everything is heard. The output is short
/// exactly if it got less than it asked for, and what is on air is the rung that was fed
/// of the segment that drains.
pub proof fn law_hearing_keeps_the_position_in_step(p: Playout, filled: u64, wanted: u64, k: int)
    requires
        p.in_range(),
        in_step(p),
        p.running,
        playout::drains(p.pending, filled as int, k),
    ensures
        ({
            let q = p.after_hearing(filled, wanted, k);
            &&& in_step(q)
            &&& q.position == Some((p.position->0 + k) as u64)
            &&& filled >= queued(p.pending) ==> q.position == p.current && q.pending.len() == 0
            &&& filled < queued(p.pending) ==> q.pending.len() > 0 && q.playing_rung
                == q.pending[0].1 && queued(q.pending) == queued(p.pending) - filled
            &&& q.underrun <==> filled < wanted
            &&& q.current == p.current && q.fed_seq == p.fed_seq && q.running && q.paused
                == p.paused
        }),
{
    let q = p.after_hearing(filled, wanted, k);
    let left = q.pending;
    law_draining_conserves_samples(p.pending, filled as int, k);
    if k > 0 {
        assert(p.pending[k - 1].0 + (p.pending.len() - (k - 1)) == p.current->0);
        assert(p.pending[0].0 + p.pending.len() == p.current->0);
    }
    if k < p.pending.len() {
        assert(left.len() == p.pending.len() - k);
        assert forall|i: int| 0 <= i < left.len() implies (#[trigger] left[i]).0 + (left.len() - i)
            == q.current->0 by {
            assert(p.pending[k + i].0 + (p.pending.len() - (k + i)) == p.current->0);
            if i > 0 {
                assert(left[i] == p.pending[k + i]);
            }
        }
        playout::lemma_samples_grow(p.pending, k + 1, p.pending.len() as int);
        if left.len() > 1 {
            assert(left.last() == p.pending.last());
        }
    } else {
        assert(left.len() == 0);
    }
}

/// What is on disk is fed, at that rung, though the encoder may have given it up; an
/// engine that is stopped or paused feeds nothing and passes nothing over.
pub proof fn law_what_is_there_is_fed(
    p: Playout,
    seq: SeqNo,
    rung: RungId,
    abandoned: bool,
    found: Option<RungId>,
    now_ms: u64,
)
    requires
        p.current == Some(seq),
    ensures
        p.running && !p.paused ==> p.decision(Some(rung), abandoned, now_ms) == (
        FeedDecision::Feed { seq, rung }) && p.decided(Some(rung), abandoned, now_ms) == p,
        !p.running || p.paused ==> p.decision(found, abandoned, now_ms) == FeedDecision::Idle
            && p.decided(found, abandoned, now_ms) == p,
        p.running && !p.paused ==> p.decision(None, true, now_ms) == (
        FeedDecision::SkipAbandoned { seq }),
{
}

/// A missing segment is waited for from when it was first missed, however often it is
/// looked for in between, for the length of three segments and no longer.
pub proof fn law_the_wait_runs_from_the_first_miss(
    p: Playout,
    seq: SeqNo,
    first_ms: u64,
    later_ms: u64,
    last_ms: u64,
)
    requires
        p.running && !p.paused,
        p.current == Some(seq),
        p.stall_since_ms is None,
        p.segment_ms > 0,
        first_ms <= later_ms < first_ms + 3 * p.segment_ms,
    ensures
        ({
            let missed = p.decided(None, false, first_ms);
            let again = missed.decided(None, false, later_ms);
            &&& p.decision(None, false, first_ms) == (FeedDecision::Wait { seq })
            &&& missed.decision(None, false, later_ms) == (FeedDecision::Wait { seq })
            &&& again.decision(None, false, last_ms) is SkipMissing <==> last_ms >= first_ms + 3
                * p.segment_ms
            &&& again.decision(None, false, last_ms) is Wait <==> last_ms < first_ms + 3
                * p.segment_ms
            &&& again.current == p.current && again.pending == p.pending
        }),
{
}

/// What is reported follows what is heard: an engine that was just started is stalled
/// until its output is filled, plays while it is, and is stalled again where it is
/// short.
pub proof fn law_a_short_output_is_a_stall(p: Playout, position: SeqNo, skip_ms: u32, short: bool)
    requires
        p.device_error is None,
    ensures
        ({
            let q = p.after(EngineCommand::Start { position, skip_ms });
            let heard = Playout { underrun: short, ..q };
            &&& q.state() == PlayoutState::Stalled
            &&& heard.state() == (if short {
                PlayoutState::Stalled
            } else {
                PlayoutState::Playing
            })
            &&& heard.after(EngineCommand::Pause).state() == PlayoutState::Paused
            &&& heard.after(EngineCommand::Pause).after(EngineCommand::Resume).state()
                == heard.state()
            &&& heard.after(EngineCommand::Stop).state() == PlayoutState::Stopped
        }),
{
}

/// Where the rate gives whole samples, a jump `skip_ms` into a segment is reported to
/// the millisecond as soon as the segment is fed.
pub proof fn law_a_jump_is_exact(
    p: Playout,
    cmd: EngineCommand,
    position: SeqNo,
    skip_ms: u32,
    rung: RungId,
)
    requires
        cmd == (EngineCommand::Start { position, skip_ms }) || cmd == (EngineCommand::Seek {
            position,
            skip_ms,
        }),
        skip_ms < p.segment_ms,
        p.sample_rate >= 1000,
        p.segment_ms * p.sample_rate % 1000 == 0,
        skip_ms * p.sample_rate % 1000 == 0,
    ensures
        ({
            let jumped = p.after(cmd);
            let whole = p.segment_ms * p.sample_rate / 1000 * 2;
            let fed = jumped.after_feed(rung);
            &&& jumped.skip == skip_ms * p.sample_rate / 1000 * 2
            &&& fed.ms_into_segment() == skip_ms
            &&& queued(fed.pending) == whole - jumped.skip
            &&& fed.skip == 0
        }),
{
    let rate = p.sample_rate as int;
    let seg = p.segment_ms as int;
    let skip = skip_ms as int;
    let a = skip * rate / 1000;
    let b = seg * rate / 1000;
    assert(skip * rate + rate <= seg * rate) by (nonlinear_arith)
        requires
            skip + 1 <= seg,
            0 <= rate,
    ;
    assert(0 <= skip * rate) by (nonlinear_arith)
        requires
            0 <= skip,
            0 <= rate,
    ;
    assert(0 <= seg * rate <= 0xffff_ffff * 0xffff_ffff) by (nonlinear_arith)
        requires
            0 <= seg <= 0xffff_ffff,
            0 <= rate <= 0xffff_ffff,
    ;
    assert(a * 1000 == skip * rate && b * 1000 == seg * rate);
    assert(0 <= a && a + 1 <= b);
    let jumped = p.after(cmd);
    assert(playout::samples_in(skip_ms, p.sample_rate) == 2 * a);
    assert(playout::samples_in(p.segment_ms, p.sample_rate) == 2 * b);
    assert(jumped.skip == 2 * a);
    let whole = 2 * b;
    let fed = jumped.after_feed(rung);
    assert(playout::samples_before(fed.pending, 0) == 0);
    assert(playout::samples_before(fed.pending, 1) == fed.pending[0].2);
    assert(fed.pending[0] == (position, Some(rung), (whole - jumped.skip) as u64));
    assert((2 * a) * seg == skip * (2 * b)) by (nonlinear_arith)
        requires
            a * 1000 == skip * rate,
            b * 1000 == seg * rate,
    ;
    if a == 0 {
        assert(skip == 0) by (nonlinear_arith)
            requires
                0 == skip * rate,
                rate >= 1000,
                0 <= skip,
        ;
    } else {
        vstd::arithmetic::div_mod::lemma_div_multiples_vanish(skip, whole);
        assert(skip * whole == whole * skip) by (nonlinear_arith);
        assert(fed.ms_into_segment() == (whole - (whole - 2 * a)) * seg / whole);
    }
}

/// A sample's four bytes come lowest first: bytes that were written so are read back,
/// one sample for every four bytes, less those that are dropped.
pub proof fn law_samples_are_read_back(bytes: Seq<u8>, values: Seq<u32>, skip: int)
    requires
        bytes.len() == 4 * values.len(),
        forall|i: int|
            0 <= i < values.len() ==> {
                &&& bytes[4 * i] == #[trigger] values[i] % 256
                &&& bytes[4 * i + 1] == values[i] / 256 % 256
                &&& bytes[4 * i + 2] == values[i] / 65536 % 256
                &&& bytes[4 * i + 3] == values[i] / 16777216
            },
        0 <= skip <= values.len(),
    ensures
        playout::whole_samples(bytes, skip) == values.skip(skip),
{
    let samples = playout::whole_samples(bytes, skip);
    assert(samples.len() == values.len() - skip);
    assert forall|i: int| 0 <= i < samples.len() implies samples[i] == values.skip(skip)[i] by {
        let v = values[skip + i];
        assert(v == v % 256 + 256 * (v / 256 % 256) + 65536 * (v / 65536 % 256) + 16777216 * (v
            / 16777216));
        assert(playout::le_u32(bytes, 4 * (skip + i)) == v);
    }
    assert(samples =~= values.skip(skip));
}

/// Of rungs in ascending order, the best one on disk is played.
pub proof fn law_the_best_rung_on_disk_is_played(
    held: store::Holdings,
    rungs: Seq<RungId>,
    seq: SeqNo,
    played: Option<RungId>,
    i: int,
)
    requires
        forall|a: int, b: int| 0 <= a < b < rungs.len() ==> rungs[a] < rungs[b],
        0 <= i < rungs.len(),
        held.contains_key(seq) && held[seq].contains(rungs[i]),
        playout::is_rung_to_play(held, rungs, seq, played),
    ensures
        played is Some,
        held[seq].contains(played->0),
        rungs[i] <= played->0,
{
    let on_disk = |k: int| held.contains_key(seq) && held[seq].contains(rungs[k]);
    assert(on_disk(i));
    let k = choose|k: int|
        {
            &&& 0 <= k < rungs.len()
            &&& #[trigger] on_disk(k)
            &&& played == Some(rungs[k])
            &&& forall|j: int| k < j < rungs.len() ==> !#[trigger] on_disk(j)
        };
    assert(on_disk(k));
}

/// A segment is heard in full unless a jump went into it: two channels of so many
/// samples as its length takes at the rate of the output.
pub proof fn law_a_segment_is_heard_in_full(p: Playout, rung: RungId)
    requires
        p.current is Some,
    ensures
        p.skip == 0 ==> p.after_feed(rung).pending.last().2 == p.segment_ms * p.sample_rate / 1000
            * 2,
        p.skip <= p.segment_ms * p.sample_rate / 1000 * 2 ==> p.after_feed(rung).pending.last().2
            + p.skip == p.segment_ms * p.sample_rate / 1000 * 2,
{
    let ms = p.segment_ms as int;
    let rate = p.sample_rate as int;
    assert(0 <= ms * rate <= 0xffff_ffff * 0xffff_ffff) by (nonlinear_arith)
        requires
            0 <= ms <= 0xffff_ffff,
            0 <= rate <= 0xffff_ffff,
    ;
}

/// How far the output is into a segment goes by what has been heard of it: the share of
/// its length that the samples heard are of all, rounded down to the millisecond.
pub proof fn law_elapsed_goes_by_what_was_heard(remaining: u64, whole: u64, segment_ms: u32)
    requires
        remaining <= whole,
        whole > 0,
    ensures
        ({
            let ms = playout::elapsed_ms(remaining, whole, segment_ms);
            &&& ms * whole <= (whole - remaining) * segment_ms
            &&& (whole - remaining) * segment_ms < (ms + 1) * whole
            &&& 0 <= ms <= segment_ms
        }),
{
    let x = (whole - remaining) * segment_ms;
    let w = whole as int;
    let ms = playout::elapsed_ms(remaining, whole, segment_ms);
    assert(0 <= x <= w * segment_ms) by (nonlinear_arith)
        requires
            x == (whole - remaining) * segment_ms,
            0 <= whole - remaining <= w,
            segment_ms >= 0,
            w == whole,
    ;
    if remaining < whole {
        assert(ms == x / w);
        assert(ms * w <= x && x < (ms + 1) * w) by (nonlinear_arith)
            requires
                ms == x / w,
                w > 0,
                x >= 0,
        ;
        assert(0 <= ms <= segment_ms) by (nonlinear_arith)
            requires
                ms * w <= x < (ms + 1) * w,
                0 <= x <= w * segment_ms,
                w > 0,
        ;
    } else {
        assert(x == 0) by (nonlinear_arith)
            requires
                x == (whole - remaining) * segment_ms,
                whole - remaining == 0,
        ;
        assert(ms == 0);
        assert(ms * w == 0 && (ms + 1) * w == w) by (nonlinear_arith)
            requires
                ms == 0,
        ;
    }
    assert(ms * whole <= x && x < (ms + 1) * whole);
}

/// The decoder reads a transport stream from standard input and writes samples of four
/// bytes on two channels, at the rate of the output, to standard output.
pub proof fn law_the_decoder_writes_what_is_played(sample_rate: u32) -> (at: int)
    ensures
        ({
            let args = playout::decoder_line(sample_rate);
            &&& 2 <= at && at + 8 == args.len() - 1
            &&& args[at - 2] == "-f"@ && args[at - 1] == "mpegts"@
            &&& args[at] == "-i"@ && args[at + 1] == "pipe:0"@
            &&& args[at + 2] == "-f"@ && args[at + 3] == "f32le"@
            &&& args[at + 4] == "-ac"@ && args[at + 5] == text::decimal(2)
            &&& args[at + 6] == "-ar"@ && args[at + 7] == text::decimal(sample_rate as nat)
            &&& args.last() == "-"@
        }),
{
    7
}

/// Why nothing is heard is told in words that name the segment, and forgotten once a
/// segment is fed or a jump goes elsewhere.
pub proof fn law_a_reason_names_its_segment(
    p: Playout,
    seq: SeqNo,
    abandoned: bool,
    now_ms: u64,
    rung: RungId,
)
    requires
        p.running && !p.paused,
        p.current == Some(seq),
    ensures
        ({
            let q = p.decided(None, abandoned, now_ms);
            &&& q.stall_reason is Some
            &&& text::contains_text(q.stall_reason->0, text::decimal(seq as nat))
            &&& q.state() == PlayoutState::Stalled ==> q.detail() == q.stall_reason
            &&& q.current != p.current ==> q.stall_since_ms is None && q.skip == 0
        }),
        p.after_feed(rung).stall_reason is None,
        p.after_feed(rung).stall_since_ms is None,
        p.after_feed(rung).skip == 0,
        p.state() == PlayoutState::Playing && p.device_error is None ==> p.detail() is None,
{
    let n = text::decimal(seq as nat);
    let t = p.decided(None, abandoned, now_ms).stall_reason->0;
    let a = "segment "@.len() as int;
    let b = "waiting on segment "@.len() as int;
    if abandoned || p.waited_out(now_ms) {
        assert(t.subrange(a, a + n.len()) =~= n);
        assert(text::stands_at(t, n, a));
    } else {
        assert(t.subrange(b, b + n.len()) =~= n);
        assert(text::stands_at(t, n, b));
    }
}

/// What is reported of a running engine is what is heard and what is fed: the first segment
/// that is not over, the rung it was fed at once some of it has been heard, and the last
/// segment that the decoder has.
pub proof fn law_the_report_is_what_is_heard(
    p: Playout,
    filled: u64,
    wanted: u64,
    k: int,
    status: PlayoutStatus,
)
    requires
        p.in_range(),
        in_step(p),
        p.running,
        p.device_error is None,
        playout::drains(p.pending, filled as int, k),
        filled < queued(p.pending),
        p.after_hearing(filled, wanted, k).reports(status),
    ensures
        ({
            let left = p.after_hearing(filled, wanted, k).pending;
            &&& status.position_seq == Some(left[0].0)
            &&& status.playing_rung == left[0].1
            &&& status.fed_seq == Some(left.last().0)
            &&& status.state == PlayoutState::Paused || status.state == PlayoutState::Stalled
                || status.state == PlayoutState::Playing
            &&& status.state == PlayoutState::Playing ==> filled >= wanted
            &&& status.volume_millis == p.volume_millis && status.test_tone == p.test_tone
        }),
{
    law_hearing_keeps_the_position_in_step(p, filled, wanted, k);
}

/// A stopped engine is reported as such, with no position, no rung and nothing fed; one that
/// was just started, at its position with nothing fed yet.
pub proof fn law_starts_and_stops_are_reported(
    p: Playout,
    position: SeqNo,
    skip_ms: u32,
    started: PlayoutStatus,
    stopped: PlayoutStatus,
)
    requires
        p.device_error is None,
        p.after(EngineCommand::Start { position, skip_ms }).reports(started),
        p.after(EngineCommand::Stop).reports(stopped),
    ensures
        started.state == PlayoutState::Stalled,
        started.position_seq == Some(position),
        started.fed_seq is None && started.playing_rung is None,
        started.position_ms_into_segment == 0,
        stopped.state == PlayoutState::Stopped,
        stopped.position_seq is None && stopped.fed_seq is None && stopped.playing_rung is None,
        stopped.detail is None,
{
}

/// Where none of the rungs is on record for a segment, the first one is looked for; where
/// there are no rungs, nothing is.
pub proof fn law_an_unrecorded_segment_is_looked_for(
    held: store::Holdings,
    rungs: Seq<RungId>,
    seq: SeqNo,
    played: Option<RungId>,
)
    requires
        playout::is_rung_to_play(held, rungs, seq, played),
        !held.contains_key(seq),
    ensures
        played == (if rungs.len() > 0 {
            Some(rungs[0])
        } else {
            None
        }),
{
}

} // verus!
