//! What holds of the loop between the two ends: the server tells the encoder where
//! playout is and what it holds, and the encoder sends what will be played.

use vstd::prelude::*;

use crate::cover_laws;
use crate::ingest::{self, UploadSetting};
use crate::plan_laws::plan_of;
use crate::playout::{EngineCommand, Playout};
use crate::scheduler::{SchedulerInput, UploadReason};
use crate::state::{PlayoutState, PlayoutStatus, RungId, SeqNo, ServerState};
use crate::store::{self, DvrStore};
use crate::{store_laws, uploader};

verus! {

/// Playout stands at a segment, or is stuck on it.
pub open spec fn plays_at(playout: PlayoutStatus, head: SeqNo) -> bool {
    &&& playout.state == PlayoutState::Playing || playout.state == PlayoutState::Paused
        || playout.state == PlayoutState::Stalled
    &&& playout.position_seq == Some(head)
}

/// Of every segment ahead that the server reports on, the encoder knows what the server has:
/// its best rung, or that it has none.
pub proof fn law_the_encoder_knows_what_the_server_has(
    s: &DvrStore,
    playout: PlayoutStatus,
    state: ServerState,
    best: Map<SeqNo, Option<RungId>>,
    given_up: Set<SeqNo>,
    low: RungId,
    live: SeqNo,
    head: SeqNo,
    seq: SeqNo,
)
    requires
        s.tells(playout, state),
        plays_at(playout, head),
        store::is_newest(s.held(), live),
        uploader::is_overlaid(
            best,
            uploader::reported_best(state.coverage@, state.coverage@.len() as int),
            given_up,
            low,
        ),
        !given_up.contains(seq),
        head <= seq <= live,
        seq <= head + 64,
    ensures
        best.contains_key(seq),
        best[seq] is Some <==> s.held().contains_key(seq),
        best[seq] matches Some(rung) ==> s.held()[seq].contains(rung) && forall|r: RungId|
            #[trigger] s.held()[seq].contains(r) ==> r <= rung,
{
    let coverage = state.coverage@;
    let i = seq - head;
    store_laws::law_coverage_tells_the_best_rung(s, playout, state, live, head, seq);
    store_laws::law_without_a_frontier_there_is_no_lead(s, playout, state, live, head);
    assert forall|a: int, b: int| 0 <= a < b < coverage.len() implies (#[trigger] coverage[a]).seq
        != (#[trigger] coverage[b]).seq by {
        assert(coverage[a].seq == head + a && coverage[b].seq == head + b);
    }
    uploader::law_reports_are_taken_as_they_are(coverage, coverage.len() as int, i);
    uploader::law_given_up_counts_as_held(
        best,
        uploader::reported_best(coverage, coverage.len() as int),
        given_up,
        low,
        seq,
    );
}

/// What has arrived at or ahead of playout is known at once: the server reports it at that
/// rung or a better one, so that it is not sent again to fill a hole.
pub proof fn law_what_arrived_is_not_sent_again(
    before: &DvrStore,
    after: &DvrStore,
    rung: RungId,
    seq: SeqNo,
    reaped: Seq<(SeqNo, RungId)>,
    playout: PlayoutStatus,
    state: ServerState,
    best: Map<SeqNo, Option<RungId>>,
    low: RungId,
    live: SeqNo,
    head: SeqNo,
)
    requires
        before.records(rung, seq, Some(head), reaped, after),
        after.tells(playout, state),
        plays_at(playout, head),
        store::is_newest(after.held(), live),
        uploader::is_overlaid(
            best,
            uploader::reported_best(state.coverage@, state.coverage@.len() as int),
            Set::empty(),
            low,
        ),
        head <= seq <= head + 64,
    ensures
        best.contains_key(seq),
        best[seq] matches Some(known) && known >= rung,
{
    store_laws::law_only_what_left_the_window_is_evicted(
        before,
        after,
        rung,
        seq,
        Some(head),
        reaped,
        live,
        seq,
        rung,
    );
    assert(after.held().contains_key(seq) && after.held()[seq].contains(rung));
    law_the_encoder_knows_what_the_server_has(
        after,
        playout,
        state,
        best,
        Set::empty(),
        low,
        live,
        head,
        seq,
    );
}

/// A start or a jump reshapes the plan at once: the segment that playout then stands at is
/// what the encoder sends first, if the server lacks it and it can be sent.
pub proof fn law_a_jump_reshapes_the_plan(
    p: Playout,
    cmd: EngineCommand,
    position: SeqNo,
    skip_ms: u32,
    s: &DvrStore,
    status: PlayoutStatus,
    input: &SchedulerInput,
)
    requires
        cmd == (EngineCommand::Start { position, skip_ms }) || (p.running && cmd == (
        EngineCommand::Seek { position, skip_ms })),
        p.device_error is None,
        p.after(cmd).reports(status),
        s.tells(status, *input.server),
        position <= input.inv.encoded_seq,
        s.water_of().high_ms > 0,
        input.max_actions > 0,
        !cover_laws::at_server(input, position as int),
        cover_laws::on_disk(input, position as int, cover_laws::first_rung(input)),
    ensures
        plan_of(input).len() > 0,
        plan_of(input)[0].seq == position,
        plan_of(input)[0].rung == cover_laws::first_rung(input),
        plan_of(input)[0].reason == UploadReason::Continuity,
        forall|i: int| 0 <= i < plan_of(input).len() ==> (#[trigger] plan_of(input)[i]).seq >= position,
{
    cover_laws::law_the_segment_at_playout_is_sent_first(input, position);
    assert(cover_laws::stands_at(input, position));
    assert(cover_laws::needed_from(input, position));
    assert forall|i: int| 0 <= i < plan_of(input).len() implies (#[trigger] plan_of(input)[i]).seq
        >= position by {
        cover_laws::law_only_what_is_needed_is_sent(input, position, i);
    }
    cover_laws::law_only_what_is_needed_is_sent(input, position, 0);
}

/// Both ends agree on a session that starts anew: where the encoder is told that the stream
/// is stale it counts from 0 again, and its first upload makes the server start over; where
/// it is told otherwise it goes on behind the newest segment, and nothing is dropped.
pub proof fn law_both_ends_start_over_together(
    s: &DvrStore,
    playout: PlayoutStatus,
    state: ServerState,
    upload: UploadSetting,
    live: SeqNo,
    session: uploader::Session,
)
    requires
        s.tells(playout, state),
        state.stale_session == ingest::has_gone_stale(
            upload.last_ingest_age_ms,
            upload.stale_reset_ms,
        ),
        upload.new_session,
        store::is_newest(s.held(), live),
        live < u64::MAX,
        !session.started,
    ensures
        upload.resets(s.held()) ==> session.begun(state).seq_offset == 0,
        !upload.resets(s.held()) ==> session.begun(state).seq_offset == live + 1,
{
    let other = choose|x: SeqNo| store::is_newest(s.held(), x);
    store::lemma_ends_unique(s.held(), live, other);
}

} // verus!
