//! What every upload plan has to cover, read off its inputs.

use vstd::prelude::*;

use crate::plan_laws::{self, plan_of};
use crate::scheduler::{self, SchedulerInput, UploadAction, UploadReason};
use crate::state::{self, PlayoutState, Rung, RungId, SeqNo};

verus! {

/// The encoder knows the server to have the segment.
pub open spec fn at_server(input: &SchedulerInput, seq: int) -> bool {
    input.inv.server_best@.contains_key(seq as u64) && input.inv.server_best@[seq as u64] is Some
}

/// The segment is on local disk at that rung.
pub open spec fn on_disk(input: &SchedulerInput, seq: int, rung: RungId) -> bool {
    input.inv.available@.contains_key(seq as u64) && input.inv.available@[seq as u64]@.contains(
        rung,
    )
}

/// The first rung of the ladder.
pub open spec fn first_rung(input: &SchedulerInput) -> RungId {
    if input.profile.rungs@.len() > 0 {
        input.profile.rungs@[0].id
    } else {
        0
    }
}

/// The segment is at the server, or can be brought there at the first rung.
pub open spec fn securable(input: &SchedulerInput, seq: int) -> bool {
    at_server(input, seq) || on_disk(input, seq, first_rung(input))
}

/// Length of a segment, which counts as 1 ms where none is given.
pub open spec fn length_ms(input: &SchedulerInput) -> int {
    if input.profile.segment_ms > 0 {
        input.profile.segment_ms as int
    } else {
        1
    }
}

/// Playout runs, is paused, or is stalled, and stands at a segment.
pub open spec fn stands_at(input: &SchedulerInput, seq: SeqNo) -> bool {
    &&& input.server.playout.state == PlayoutState::Playing || input.server.playout.state
        == PlayoutState::Paused || input.server.playout.state == PlayoutState::Stalled
    &&& input.server.playout.position_seq == Some(seq)
}

/// The segment from which on the server needs everything: that of playout, else the
/// newest one of the server, else the oldest one on local disk.
pub open spec fn needed_from(input: &SchedulerInput, seq: SeqNo) -> bool {
    if exists|s: SeqNo| stands_at(input, s) {
        stands_at(input, seq)
    } else if input.server.live_seq is Some {
        input.server.live_seq == Some(seq)
    } else {
        seq == input.inv.oldest_seq
    }
}

/// Bitrate of the first rung with an id, 0 where there is none.
pub open spec fn kbps_of(rungs: Seq<Rung>, id: RungId) -> int
    decreases rungs.len(),
{
    if rungs.len() == 0 {
        0
    } else if rungs[0].id == id {
        rungs[0].bitrate_kbps as int
    } else {
        kbps_of(rungs.skip(1), id)
    }
}

/// Bitrate of all uploads together.
pub open spec fn sent_kbps(rungs: Seq<Rung>, plan: Seq<UploadAction>) -> int
    decreases plan.len(),
{
    if plan.len() == 0 {
        0
    } else {
        sent_kbps(rungs, plan.drop_last()) + kbps_of(rungs, plan.last().rung)
    }
}

/// The measured throughput, less the headroom, carries a bitrate.
pub open spec fn link_carries(input: &SchedulerInput, kbps: int) -> bool {
    kbps * 1000 <= input.throughput_kbps * input.headroom_permille
}

/// The plan sends the segment.
pub open spec fn sends(plan: Seq<UploadAction>, seq: int) -> bool {
    exists|i: int| 0 <= i < plan.len() && (#[trigger] plan[i]).seq == seq
}

proof fn lemma_kbps_of(rungs: Seq<Rung>, id: RungId)
    ensures
        kbps_of(rungs, id) == (match state::rung_by_id(rungs, id) {
            Some(r) => r.bitrate_kbps as int,
            None => 0,
        }),
        kbps_of(rungs, id) >= 0,
    decreases rungs.len(),
{
    if rungs.len() > 0 && rungs[0].id != id {
        lemma_kbps_of(rungs.skip(1), id);
        assert(rungs.skip(1) =~= rungs.drop_first());
    }
}

proof fn lemma_sent_kbps(input: &SchedulerInput, plan: Seq<UploadAction>)
    ensures
        sent_kbps(input.profile.rungs@, plan) == scheduler::plan_kbps(input.profile, plan),
        sent_kbps(input.profile.rungs@, plan) >= 0,
    decreases plan.len(),
{
    if plan.len() > 0 {
        lemma_sent_kbps(input, plan.drop_last());
        lemma_kbps_of(input.profile.rungs@, plan.last().rung);
    }
}

proof fn lemma_anchor(input: &SchedulerInput, from: SeqNo)
    requires
        needed_from(input, from),
    ensures
        input.anchor() == from,
{
    if let Some(p) = input.server.playout.position_seq {
        if input.server.playout.state == PlayoutState::Playing || input.server.playout.state
            == PlayoutState::Paused || input.server.playout.state == PlayoutState::Stalled {
            assert(stands_at(input, p));
        }
    }
}

/// Sorting keeps every action.
pub proof fn law_ordering_loses_nothing(plan: Seq<UploadAction>)
    ensures
        scheduler::by_priority(plan).to_multiset() == plan.to_multiset(),
    decreases plan.len(),
{
    broadcast use vstd::seq_lib::group_to_multiset_ensures;

    if plan.len() > 0 {
        let front = plan.drop_last();
        law_ordering_loses_nothing(front);
        let k = plan_laws::lemma_insert_place(scheduler::by_priority(front), plan.last());
        assert(front.push(plan.last()) =~= plan);
    }
}

proof fn lemma_kept(plan: Seq<UploadAction>, seq: int)
    ensures
        sends(scheduler::by_priority(plan), seq) <==> sends(plan, seq),
        scheduler::by_priority(plan).len() == plan.len(),
        forall|a: UploadAction| #[trigger]
            scheduler::by_priority(plan).contains(a) <==> plan.contains(a),
{
    broadcast use vstd::seq_lib::group_to_multiset_ensures;

    let sorted = scheduler::by_priority(plan);
    law_ordering_loses_nothing(plan);
    assert(sorted.to_multiset().len() == plan.to_multiset().len());
    assert forall|a: UploadAction| #[trigger] sorted.contains(a) <==> plan.contains(a) by {
        assert(sorted.to_multiset().count(a) == plan.to_multiset().count(a));
    }
    if sends(plan, seq) {
        let i = choose|i: int| 0 <= i < plan.len() && (#[trigger] plan[i]).seq == seq;
        assert(sorted.contains(plan[i]));
        let k = choose|k: int| 0 <= k < sorted.len() && sorted[k] == plan[i];
        assert(sorted[k].seq == seq);
    }
    if sends(sorted, seq) {
        let i = choose|i: int| 0 <= i < sorted.len() && (#[trigger] sorted[i]).seq == seq;
        assert(sorted.contains(sorted[i]));
        let k = choose|k: int| 0 <= k < plan.len() && plan[k] == sorted[i];
        assert(plan[k].seq == seq);
    }
}

/// Every action of a plan comes from the whole plan.
proof fn lemma_origin(input: &SchedulerInput, i: int) -> (k: int)
    requires
        0 <= i < plan_of(input).len(),
    ensures
        0 <= k < input.capped_plan().len(),
        k < input.full_plan().len(),
        input.capped_plan()[k] == plan_of(input)[i],
        input.full_plan()[k] == plan_of(input)[i],
{
    let capped = input.capped_plan();
    lemma_kept(capped, 0);
    assert(plan_of(input).contains(plan_of(input)[i]));
    let k = choose|k: int| 0 <= k < capped.len() && capped[k] == plan_of(input)[i];
    assert(input.full_plan()[k] == capped[k]);
    k
}

/// While playout runs, is paused, or is stalled, the segment it stands at is what a plan
/// sends first, if the server lacks it and it is on disk at the first rung: at that rung,
/// at top priority, to keep playout going.
pub proof fn law_the_segment_at_playout_is_sent_first(input: &SchedulerInput, p: SeqNo)
    requires
        input.server.playout.state == PlayoutState::Playing || input.server.playout.state
            == PlayoutState::Paused || input.server.playout.state == PlayoutState::Stalled,
        input.server.playout.position_seq == Some(p),
        p <= input.inv.encoded_seq,
        input.server.water.high_ms > 0,
        input.max_actions > 0,
        !(input.inv.server_best@.contains_key(p) && input.inv.server_best@[p] is Some),
        input.inv.available@.contains_key(p),
        input.profile.rungs@.len() > 0 ==> input.inv.available@[p]@.contains(
            input.profile.rungs@[0].id,
        ),
        input.profile.rungs@.len() == 0 ==> input.inv.available@[p]@.contains(0),
    ensures
        plan_of(input).len() > 0,
        plan_of(input)[0].seq == p,
        plan_of(input)[0].reason == UploadReason::Continuity,
        plan_of(input)[0].priority == 0,
        input.profile.rungs@.len() > 0 ==> plan_of(input)[0].rung == input.profile.rungs@[0].id,
{
    plan_laws::law_a_hole_at_the_head_is_sent_first(input);
    plan_laws::lemma_plan(input);
    assert(plan_laws::good_action(input, plan_of(input)[0]));
}

/// Where the continuity tier gets to segment `seq`, it is sent, behind nothing but
/// continuity uploads of earlier segments.
proof fn lemma_continuity_reaches(
    input: &SchedulerInput,
    plan: Seq<UploadAction>,
    from: int,
    at: int,
    lead_ms: int,
    seq: int,
) -> (k: int)
    requires
        input.anchor() <= from,
        from == input.anchor(),
        from <= at <= seq <= input.encoded(),
        lead_ms == (at - from) * input.seg_ms(),
        (seq - from) * input.seg_ms() < input.server.water.high_ms,
        !input.server_has(seq),
        forall|t: int|
            from <= t <= seq ==> #[trigger] input.server_has(t) || input.inv.holds(t, input.low()),
        forall|i: int|
            0 <= i < plan.len() ==> (#[trigger] plan[i]).seq < at && plan[i].reason
                == UploadReason::Continuity,
    ensures
        ({
            let full = input.continuity_from(plan, at, lead_ms);
            &&& 0 <= k < full.len()
            &&& full[k].seq == seq
            &&& full[k].reason == UploadReason::Continuity
            &&& forall|i: int|
                0 <= i < k ==> (#[trigger] full[i]).seq < seq && full[i].reason
                    == UploadReason::Continuity
        }),
    decreases seq - at,
{
    let g = input.seg_ms();
    assert((at + 1 - from) * g == (at - from) * g + g) by (nonlinear_arith);
    assert((at - from) * g <= (seq - from) * g) by (nonlinear_arith)
        requires
            at <= seq,
            0 <= g,
    ;
    assert(input.server_has(at) || input.inv.holds(at, input.low()));
    if input.server_has(at) {
        lemma_continuity_reaches(input, plan, from, at + 1, lead_ms + g, seq)
    } else {
        let rung = input.fill_rung(plan, at, input.prefers_quality())->0;
        let a = input.continuity_action(at, rung);
        let next = plan.push(a);
        if at == seq {
            input.lemma_continuity_extends(next, at + 1, lead_ms + g);
            let full = input.continuity_from(plan, at, lead_ms);
            assert(full == input.continuity_from(next, at + 1, lead_ms + g));
            assert(next =~= full.take(next.len() as int));
            assert forall|i: int| 0 <= i < next.len() implies #[trigger] full[i] == next[i] by {
                assert(full.take(next.len() as int)[i] == full[i]);
            }
            assert(full[plan.len() as int] == a);
            plan.len() as int
        } else {
            lemma_continuity_reaches(input, next, from, at + 1, lead_ms + g, seq)
        }
    }
}

proof fn lemma_securable(input: &SchedulerInput, from: SeqNo, seq: int)
    requires
        forall|t: int| from <= t <= seq ==> #[trigger] securable(input, t),
    ensures
        forall|t: int|
            from <= t <= seq ==> #[trigger] input.server_has(t) || input.inv.holds(t, input.low()),
{
    assert forall|t: int| from <= t <= seq implies #[trigger] input.server_has(t)
        || input.inv.holds(t, input.low()) by {
        assert(securable(input, t));
    }
}

proof fn lemma_prefix_index(a: Seq<UploadAction>, b: Seq<UploadAction>)
    requires
        a.is_prefix_of(b),
    ensures
        a.len() <= b.len(),
        forall|i: int| 0 <= i < a.len() ==> #[trigger] b[i] == a[i],
{
    assert forall|i: int| 0 <= i < a.len() implies #[trigger] b[i] == a[i] by {
        assert(b.subrange(0, a.len() as int)[i] == b[i]);
    }
}

/// The continuity tier comes first in the whole plan.
proof fn lemma_continuity_first(input: &SchedulerInput)
    ensures
        input.continuity_plan().len() <= input.covered_plan().len() <= input.full_plan().len(),
        forall|i: int|
            0 <= i < input.continuity_plan().len() ==> #[trigger] input.full_plan()[i]
                == input.continuity_plan()[i],
        forall|i: int|
            0 <= i < input.covered_plan().len() ==> #[trigger] input.full_plan()[i]
                == input.covered_plan()[i],
{
    input.lemma_tiers_extend();
    lemma_prefix_index(input.continuity_plan(), input.covered_plan());
    lemma_prefix_index(input.covered_plan(), input.full_plan());
    assert forall|i: int| 0 <= i < input.continuity_plan().len() implies #[trigger] input.full_plan()[i]
        == input.continuity_plan()[i] by {
        assert(input.covered_plan()[i] == input.continuity_plan()[i]);
    }
}

/// Every segment that the server lacks is sent, up to `high_ms` past where it needs
/// everything from, as long as no segment before it is out of reach of both ends. Only a
/// plan that is full may leave it out, and then all of that plan is for earlier segments.
pub proof fn law_every_hole_ahead_is_filled(input: &SchedulerInput, from: SeqNo, seq: SeqNo)
    requires
        needed_from(input, from),
        from <= seq <= input.inv.encoded_seq,
        !at_server(input, seq as int),
        (seq - from) * length_ms(input) < input.server.water.high_ms,
        forall|t: int| from <= t <= seq ==> #[trigger] securable(input, t),
    ensures
        sends(plan_of(input), seq as int) || plan_of(input).len() == input.max_actions,
        !sends(plan_of(input), seq as int) ==> forall|i: int|
            0 <= i < plan_of(input).len() ==> (#[trigger] plan_of(input)[i]).seq < seq
                && plan_of(input)[i].reason == UploadReason::Continuity,
        forall|i: int|
            0 <= i < plan_of(input).len() && (#[trigger] plan_of(input)[i]).seq == seq
                ==> plan_of(input)[i].reason == UploadReason::Continuity,
{
    lemma_anchor(input, from);
    lemma_securable(input, from, seq as int);
    let k = lemma_continuity_reaches(
        input,
        Seq::empty(),
        from as int,
        from as int,
        0,
        seq as int,
    );
    lemma_continuity_first(input);
    let full = input.full_plan();
    let capped = input.capped_plan();
    assert(input.continuity_plan()[k] == full[k]);
    lemma_kept(capped, seq as int);
    plan_laws::lemma_full_plan(input);
    if k < capped.len() {
        assert(capped[k] == full[k]);
        assert(sends(capped, seq as int));
    } else {
        assert forall|i: int| 0 <= i < plan_of(input).len() implies (#[trigger] plan_of(
            input,
        )[i]).seq < seq && plan_of(input)[i].reason == UploadReason::Continuity by {
            let j = lemma_origin(input, i);
            assert(input.continuity_plan()[j] == full[j]);
        }
    }
    assert forall|i: int|
        0 <= i < plan_of(input).len() && (#[trigger] plan_of(input)[i]).seq
            == seq implies plan_of(input)[i].reason == UploadReason::Continuity by {
        let j = lemma_origin(input, i);
        if j != k {
            assert(full[j].seq != full[k].seq);
        }
    }
}

/// So many segments in a row are secured.
proof fn lemma_secured(input: &SchedulerInput, plan: Seq<UploadAction>, at: int, n: int)
    requires
        0 <= n,
        n > 0 ==> at + n - 1 <= input.encoded(),
        forall|t: int|
            at <= t < at + n ==> #[trigger] input.server_has(t) || scheduler::plans(plan, t),
    ensures
        input.secured_from(plan, at) >= n,
    decreases n,
{
    if n > 0 {
        assert(input.server_has(at) || scheduler::plans(plan, at));
        lemma_secured(input, plan, at + 1, n - 1);
    }
}

/// The secured run does not pass a segment that is not secured.
proof fn lemma_secured_stops(input: &SchedulerInput, plan: Seq<UploadAction>, at: int, stop: int)
    requires
        at <= stop,
        stop > input.encoded() || !(input.server_has(stop) || scheduler::plans(plan, stop)),
    ensures
        at + input.secured_from(plan, at) <= stop,
    decreases stop - at,
{
    if at < stop {
        lemma_secured_stops(input, plan, at + 1, stop);
    }
}

/// Where the first `n` segments can be secured, the continuity tier secures them.
proof fn lemma_lead(input: &SchedulerInput, from: SeqNo, n: int)
    requires
        needed_from(input, from),
        0 <= n,
        n > 0 ==> (n - 1) * length_ms(input) < input.server.water.high_ms,
        n > 0 ==> from + n - 1 <= input.inv.encoded_seq,
        forall|t: int| from <= t < from + n ==> #[trigger] securable(input, t),
    ensures
        input.lead_ms() >= n * length_ms(input),
{
    lemma_anchor(input, from);
    let plan = input.continuity_plan();
    let g = length_ms(input);
    assert forall|t: int| from <= t < from + n implies #[trigger] input.server_has(t)
        || scheduler::plans(plan, t) by {
        if !input.server_has(t) {
            assert((t - from) * g <= (n - 1) * g) by (nonlinear_arith)
                requires
                    t - from <= n - 1,
                    0 <= g,
            ;
            lemma_securable(input, from, t);
            let k = lemma_continuity_reaches(input, Seq::empty(), from as int, from as int, 0, t);
            assert(plan[k].seq == t);
        }
    }
    lemma_secured(input, plan, from as int, n);
    let run = input.secured_from(plan, from as int) as int;
    assert(run * g >= n * g) by (nonlinear_arith)
        requires
            run >= n,
            0 <= g,
    ;
}

/// The live-edge tier sends a segment, or has no room left even for the first rung.
proof fn lemma_live_edge_reaches(
    input: &SchedulerInput,
    plan: Seq<UploadAction>,
    at: int,
    seq: int,
)
    requires
        0 <= at <= seq <= input.encoded(),
        !input.server_has(seq),
        input.inv.holds(seq, input.low()),
    ensures
        ({
            let full = input.live_edge_from(plan, at);
            ||| scheduler::plans(full, seq)
            ||| !input.fits(
                scheduler::plan_kbps(input.profile, full) + input.profile.spec_bitrate_of(
                    input.low(),
                ),
            )
        }),
    decreases seq - at,
{
    let full = input.live_edge_from(plan, at);
    if at == seq && scheduler::plans(plan, seq) {
        input.lemma_live_edge_extends(plan, at);
        lemma_prefix_index(plan, full);
        let i = choose|i: int| 0 <= i < plan.len() && (#[trigger] plan[i]).seq == seq;
        assert(full[i].seq == seq);
    } else if input.server_has(at) || scheduler::plans(plan, at) {
        lemma_live_edge_reaches(input, plan, at + 1, seq);
    } else if let Some(rung) = input.fill_rung(plan, at, !scheduler::is_unknown(input.server)) {
        if input.fits(
            scheduler::plan_kbps(input.profile, plan) + input.profile.spec_bitrate_of(rung),
        ) {
            let next = plan.push(input.live_edge_action(at, rung));
            if at == seq {
                input.lemma_live_edge_extends(next, at + 1);
                lemma_prefix_index(next, full);
                assert(next[plan.len() as int].seq == seq);
                assert(full[plan.len() as int].seq == seq);
            } else {
                lemma_live_edge_reaches(input, next, at + 1, seq);
            }
        } else {
            assert(rung == input.low());
        }
    } else {
        lemma_live_edge_reaches(input, plan, at + 1, seq);
    }
}

/// What the plan takes in the end is at least what any of its beginnings takes.
proof fn lemma_kbps_grows(input: &SchedulerInput, a: Seq<UploadAction>, b: Seq<UploadAction>)
    requires
        a.is_prefix_of(b),
    ensures
        scheduler::plan_kbps(input.profile, a) <= scheduler::plan_kbps(input.profile, b),
{
    lemma_prefix_index(a, b);
    assert(a =~= b.take(a.len() as int));
    plan_laws::lemma_plan_kbps_prefix(input.profile, b, a.len() as int);
}

/// Once `low_ms` are secured, every segment of the newest `target_ms` that the server
/// lacks and that can be sent is sent, the newest one in any case: unless the plan is full,
/// or the link cannot carry the first rung of one more segment on top of the plan.
pub proof fn law_the_live_edge_is_covered(
    input: &SchedulerInput,
    from: SeqNo,
    n: int,
    seq: SeqNo,
)
    requires
        needed_from(input, from),
        0 <= n,
        n * length_ms(input) >= input.server.water.low_ms,
        n > 0 ==> (n - 1) * length_ms(input) < input.server.water.high_ms,
        n > 0 ==> from + n - 1 <= input.inv.encoded_seq,
        forall|t: int| from <= t < from + n ==> #[trigger] securable(input, t),
        from <= seq <= input.inv.encoded_seq,
        seq == input.inv.encoded_seq || (input.inv.encoded_seq - seq + 1) * length_ms(input)
            <= input.server.water.target_ms,
        !at_server(input, seq as int),
        on_disk(input, seq as int, first_rung(input)),
    ensures
        ({
            let plan = plan_of(input);
            let rungs = input.profile.rungs@;
            ||| sends(plan, seq as int)
            ||| plan.len() == input.max_actions
            ||| !link_carries(input, sent_kbps(rungs, plan) + kbps_of(rungs, first_rung(input)))
        }),
{
    lemma_anchor(input, from);
    lemma_lead(input, from, n);
    lemma_continuity_first(input);
    input.lemma_tiers_extend();
    let g = length_ms(input);
    let target = input.server.water.target_ms as int;
    let back = input.inv.encoded_seq - seq + 1;
    assert(back <= input.segs_in(input.server.water.target_ms)) by {
        if back > 1 {
            lemma_whole_lengths(back, g, target);
        } else if target >= g {
            assert(1 * g == g);
            lemma_whole_lengths(1, g, target);
        }
    }
    assert(input.live_edge_start() <= seq);
    let covered = input.covered_plan();
    let full = input.full_plan();
    lemma_live_edge_reaches(
        input,
        input.continuity_plan(),
        input.live_edge_start(),
        seq as int,
    );
    lemma_kbps_grows(input, covered, full);
    let plan = plan_of(input);
    lemma_kept(input.capped_plan(), seq as int);
    if plan.len() < input.max_actions {
        assert(input.capped_plan() == full);
        plan_laws::lemma_by_priority(input.profile, full);
        lemma_sent_kbps(input, plan);
        lemma_kbps_of(input.profile.rungs@, first_rung(input));
        if scheduler::plans(covered, seq as int) {
            let i = choose|i: int| 0 <= i < covered.len() && (#[trigger] covered[i]).seq == seq;
            assert(full[i].seq == seq);
            assert(sends(full, seq as int));
        }
    } else {
        plan_laws::lemma_capped_plan(input);
    }
}

/// So many whole lengths go into a stretch.
proof fn lemma_whole_lengths(count: int, length: int, stretch: int)
    requires
        count >= 1,
        length >= 1,
        count * length <= stretch,
    ensures
        stretch >= length,
        count <= stretch / length,
{
    assert(length <= count * length) by (nonlinear_arith)
        requires
            count >= 1,
            length >= 1,
    ;
    assert(count <= stretch / length) by (nonlinear_arith)
        requires
            length >= 1,
            count * length <= stretch,
    ;
}

/// The rung of the ladder at place `k` is one step up for a segment: of those with a
/// greater id than what the server has, or than the first rung where it has nothing, the
/// cheapest, and of equally cheap ones the first.
pub open spec fn is_step_up(input: &SchedulerInput, seq: int, k: int) -> bool {
    let rungs = input.profile.rungs@;
    let current = if at_server(input, seq) {
        input.inv.server_best@[seq as u64]->0
    } else {
        first_rung(input)
    };
    &&& 0 <= k < rungs.len()
    &&& rungs[k].id > current
    &&& forall|j: int|
        0 <= j < rungs.len() && (#[trigger] rungs[j]).id > current ==> rungs[k].bitrate_kbps
            <= rungs[j].bitrate_kbps && (j < k ==> rungs[k].bitrate_kbps < rungs[j].bitrate_kbps)
}

proof fn lemma_step_up(input: &SchedulerInput, seq: int, k: int)
    requires
        is_step_up(input, seq, k),
    ensures
        on_disk(input, seq, input.profile.rungs@[k].id) ==> input.upgrade_rung(seq) == Some(
            input.profile.rungs@[k].id,
        ),
        !on_disk(input, seq, input.profile.rungs@[k].id) ==> input.upgrade_rung(seq) is None,
{
    let rungs = input.profile.rungs@;
    let current = match input.inv.best_at_server(seq) {
        Some(best) => best,
        None => input.low(),
    };
    assert(state::is_cheapest_above(rungs, current as int, k));
    let j = choose|j: int| state::is_cheapest_above(rungs, current as int, j);
    state::lemma_cheapest_above_unique(rungs, current as int, k, j);
}

proof fn lemma_upgrade_is_step_up(input: &SchedulerInput, seq: int) -> (k: int)
    requires
        input.upgrade_rung(seq) is Some,
    ensures
        is_step_up(input, seq, k),
        input.upgrade_rung(seq) == Some(input.profile.rungs@[k].id),
        on_disk(input, seq, input.profile.rungs@[k].id),
{
    let rungs = input.profile.rungs@;
    let current = match input.inv.best_at_server(seq) {
        Some(best) => best,
        None => input.low(),
    };
    let k = choose|j: int| state::is_cheapest_above(rungs, current as int, j);
    assert(state::is_cheapest_above(rungs, current as int, k));
    k
}

/// The upgrade tier raises a segment, or has no room left for one that comes no later.
proof fn lemma_upgrades_reach(
    input: &SchedulerInput,
    plan: Seq<UploadAction>,
    at: int,
    seq: int,
) -> (t: int)
    requires
        0 <= at <= seq <= input.upgrade_end(),
        input.upgrade_rung(seq) is Some,
    ensures
        ({
            let full = input.upgrades_from(plan, at, input.upgrade_end());
            ||| scheduler::plans(full, seq)
            ||| at <= t <= seq && input.upgrade_rung(t) is Some && !input.fits(
                scheduler::plan_kbps(input.profile, full) + input.profile.spec_bitrate_of(
                    input.upgrade_rung(t)->0,
                ),
            )
        }),
    decreases seq - at,
{
    let end = input.upgrade_end();
    let full = input.upgrades_from(plan, at, end);
    if at == seq && scheduler::plans(plan, seq) {
        input.lemma_upgrades_extend(plan, at, end);
        lemma_prefix_index(plan, full);
        let i = choose|i: int| 0 <= i < plan.len() && (#[trigger] plan[i]).seq == seq;
        assert(full[i].seq == seq);
        at
    } else if scheduler::plans(plan, at) {
        lemma_upgrades_reach(input, plan, at + 1, seq)
    } else if let Some(rung) = input.upgrade_rung(at) {
        if input.fits(
            scheduler::plan_kbps(input.profile, plan) + input.profile.spec_bitrate_of(rung),
        ) {
            let next = plan.push(input.upgrade_action(at, rung));
            if at == seq {
                input.lemma_upgrades_extend(next, at + 1, end);
                lemma_prefix_index(next, full);
                assert(next[plan.len() as int].seq == seq);
                assert(full[plan.len() as int].seq == seq);
                at
            } else {
                lemma_upgrades_reach(input, next, at + 1, seq)
            }
        } else {
            at
        }
    } else {
        lemma_upgrades_reach(input, plan, at + 1, seq)
    }
}

/// Once `high_ms` are secured, every segment up to `high_ms` past what playout and the
/// decoder have behind them is raised by one step, if that is on disk, the very next one
/// in any case: unless it is in the plan already, the plan is full, or the link cannot
/// carry the step of a segment that comes no later on top of the plan.
pub proof fn law_quality_is_raised_ahead(
    input: &SchedulerInput,
    from: SeqNo,
    n: int,
    behind: SeqNo,
    seq: SeqNo,
    k: int,
)
    requires
        needed_from(input, from),
        0 <= n,
        n * length_ms(input) >= input.server.water.low_ms,
        n * length_ms(input) >= input.server.water.high_ms,
        n > 0 ==> (n - 1) * length_ms(input) < input.server.water.high_ms,
        n > 0 ==> from + n - 1 <= input.inv.encoded_seq,
        forall|t: int| from <= t < from + n ==> #[trigger] securable(input, t),
        behind >= from,
        input.server.playout.fed_seq matches Some(fed) ==> behind >= fed,
        behind == from || input.server.playout.fed_seq == Some(behind),
        behind < seq <= input.inv.encoded_seq,
        seq == behind + 1 || (seq - behind) * length_ms(input) <= input.server.water.high_ms,
        is_step_up(input, seq as int, k),
        on_disk(input, seq as int, input.profile.rungs@[k].id),
    ensures
        ({
            let plan = plan_of(input);
            let rungs = input.profile.rungs@;
            ||| sends(plan, seq as int)
            ||| plan.len() == input.max_actions
            ||| exists|t: int, j: int|
                {
                    &&& behind < t <= seq
                    &&& #[trigger] is_step_up(input, t, j)
                    &&& on_disk(input, t, rungs[j].id)
                    &&& !link_carries(input, sent_kbps(rungs, plan) + kbps_of(rungs, rungs[j].id))
                }
        }),
{
    lemma_anchor(input, from);
    lemma_lead(input, from, n);
    lemma_continuity_first(input);
    lemma_step_up(input, seq as int, k);
    let g = length_ms(input);
    let high = input.server.water.high_ms as int;
    assert(input.already_fed() == behind);
    assert(seq - behind <= input.segs_in(input.server.water.high_ms)) by {
        if seq > behind + 1 {
            lemma_whole_lengths(seq - behind, g, high);
        } else if high >= g {
            assert(1 * g == g);
            lemma_whole_lengths(1, g, high);
        }
    }
    assert(seq <= input.upgrade_end());
    let full = input.full_plan();
    let t = lemma_upgrades_reach(input, input.covered_plan(), behind + 1, seq as int);
    let plan = plan_of(input);
    lemma_kept(input.capped_plan(), seq as int);
    if plan.len() < input.max_actions {
        assert(input.capped_plan() == full);
        plan_laws::lemma_by_priority(input.profile, full);
        lemma_sent_kbps(input, plan);
        if scheduler::plans(full, seq as int) {
            assert(sends(full, seq as int));
        } else {
            let j = lemma_upgrade_is_step_up(input, t);
            lemma_kbps_of(input.profile.rungs@, input.profile.rungs@[j].id);
            assert(is_step_up(input, t, j));
        }
    } else {
        plan_laws::lemma_capped_plan(input);
    }
}

/// What a plan sends is on local disk, is needed, and is worth its bytes: nothing before
/// where the server needs everything from, nothing that the server has at that rung or a
/// better one. What fills a hole is sent at the first rung or at the preferred one, and
/// while playout stands at a segment, or the server is silent, continuity keeps to the
/// first.
pub proof fn law_only_what_is_needed_is_sent(input: &SchedulerInput, from: SeqNo, i: int)
    requires
        needed_from(input, from),
        0 <= i < plan_of(input).len(),
    ensures
        ({
            let a = plan_of(input)[i];
            &&& from <= a.seq <= input.inv.encoded_seq
            &&& on_disk(input, a.seq as int, a.rung)
            &&& at_server(input, a.seq as int) ==> a.rung > input.inv.server_best@[a.seq]->0
                && a.reason == UploadReason::Upgrade
            &&& a.reason == UploadReason::Continuity ==> {
                &&& (a.seq - from) * length_ms(input) < input.server.water.high_ms
                &&& a.rung == first_rung(input) || a.rung == input.preferred_rung
                &&& (exists|s: SeqNo| stands_at(input, s)) ==> a.rung == first_rung(input)
                &&& a.priority == a.seq - from
            }
            &&& a.reason == UploadReason::LiveEdge ==> {
                &&& a.seq == input.inv.encoded_seq || (input.inv.encoded_seq - a.seq + 1)
                    * length_ms(input) <= input.server.water.target_ms
                &&& a.rung == first_rung(input) || a.rung == input.preferred_rung
            }
            &&& a.reason == UploadReason::LiveEdge && input.inv.encoded_seq - a.seq < 1_000_000
                ==> a.priority == 1_000_000 + (input.inv.encoded_seq - a.seq)
            &&& a.reason == UploadReason::Upgrade && a.seq - from < 1_000_000 ==> a.priority
                == 2_000_000 + (a.seq - from)
            &&& a.reason != UploadReason::Upgrade && input.server.rev == 0
                && input.server.live_seq is None ==> a.rung == first_rung(input)
            &&& a.reason == UploadReason::Upgrade ==> {
                &&& a.seq > from
                &&& input.server.playout.fed_seq matches Some(fed) ==> a.seq > fed
                &&& exists|k: int| #[trigger]
                    is_step_up(input, a.seq as int, k) && input.profile.rungs@[k].id == a.rung
                &&& exists|behind: SeqNo|
                    {
                        &&& behind == from || input.server.playout.fed_seq == Some(behind)
                        &&& behind < a.seq
                        &&& a.seq == behind + 1 || #[trigger] ((a.seq - behind) * length_ms(input))
                            <= input.server.water.high_ms
                    }
            }
        }),
{
    lemma_anchor(input, from);
    plan_laws::lemma_plan(input);
    let a = plan_of(input)[i];
    let g = length_ms(input);
    assert(plan_laws::good_action(input, a));
    if a.reason == UploadReason::Continuity {
        assert(a.seq - from <= (a.seq - from) * g) by (nonlinear_arith)
            requires
                0 <= a.seq - from,
                1 <= g,
        ;
        if exists|s: SeqNo| stands_at(input, s) {
            let s = choose|s: SeqNo| stands_at(input, s);
            assert(stands_at(input, s));
        }
    }
    if a.reason == UploadReason::LiveEdge {
        let back = input.inv.encoded_seq - a.seq + 1;
        if back > 1 {
            lemma_lengths_back(back, g, input.server.water.target_ms as int);
        }
    }
    if a.reason == UploadReason::Upgrade {
        let k = lemma_upgrade_is_step_up(input, a.seq as int);
        let behind = input.already_fed() as u64;
        assert(behind == from || input.server.playout.fed_seq == Some(behind));
        let on = a.seq - behind;
        if on > 1 {
            lemma_lengths_back(on, g, input.server.water.high_ms as int);
        }
        assert(a.seq == behind + 1 || (a.seq - behind) * g <= input.server.water.high_ms);
    }
}

/// So many lengths, if there are that many in a stretch, are no longer than it.
proof fn lemma_lengths_back(count: int, length: int, stretch: int)
    requires
        count > 1,
        length >= 1,
        0 <= stretch,
        count <= (if stretch < length {
            1
        } else {
            stretch / length
        }),
    ensures
        count * length <= stretch,
{
    assert(count * length <= stretch) by (nonlinear_arith)
        requires
            length >= 1,
            0 <= stretch,
            count <= stretch / length,
    ;
}

/// As long as something within `low_ms` is neither at the server nor in the plan, all of
/// the plan is for continuity; as long as something within `high_ms` is, there is no
/// upgrade.
pub proof fn law_a_thin_margin_comes_first(
    input: &SchedulerInput,
    from: SeqNo,
    missing: int,
    i: int,
)
    requires
        needed_from(input, from),
        from <= missing,
        missing > input.inv.encoded_seq || (!at_server(input, missing) && !sends(
            plan_of(input),
            missing,
        )),
        0 <= i < plan_of(input).len(),
    ensures
        (missing - from) * length_ms(input) < input.server.water.low_ms ==> plan_of(input)[i].reason
            == UploadReason::Continuity,
        (missing - from) * length_ms(input) < input.server.water.high_ms ==> plan_of(
            input,
        )[i].reason != UploadReason::Upgrade,
{
    lemma_anchor(input, from);
    lemma_continuity_first(input);
    let k = lemma_origin(input, i);
    let full = input.full_plan();
    let capped = input.capped_plan();
    let plan = input.continuity_plan();
    plan_laws::lemma_plan(input);
    assert(plan_laws::good_action(input, plan_of(input)[i]));
    lemma_kept(capped, missing);
    if scheduler::plans(plan, missing) && missing <= input.encoded() {
        let j = choose|j: int| 0 <= j < plan.len() && (#[trigger] plan[j]).seq == missing;
        assert(full[j] == plan[j]);
        if j < capped.len() {
            assert(capped[j].seq == missing);
            assert(sends(capped, missing));
        }
        assert(k < plan.len());
        assert(input.anchor() - input.anchor() == 0);
        plan_laws::lemma_continuity_tier(input, Seq::empty(), input.anchor(), 0);
        assert(plan_laws::good_continuity(input, plan[k]));
    } else {
        lemma_secured_stops(input, plan, from as int, missing);
        let run = input.secured_from(plan, from as int) as int;
        let g = length_ms(input);
        assert(run * g <= (missing - from) * g) by (nonlinear_arith)
            requires
                run <= missing - from,
                0 <= g,
        ;
    }
}

/// No continuity upload leaves a hole before it: everything from where the server needs it
/// up to that segment is at the server or in the plan.
pub proof fn law_continuity_leaves_no_hole_behind(
    input: &SchedulerInput,
    from: SeqNo,
    i: int,
    t: int,
)
    requires
        needed_from(input, from),
        0 <= i < plan_of(input).len(),
        plan_of(input)[i].reason == UploadReason::Continuity,
        from <= t <= plan_of(input)[i].seq,
    ensures
        at_server(input, t) || sends(plan_of(input), t),
{
    lemma_anchor(input, from);
    lemma_continuity_first(input);
    let k = lemma_origin(input, i);
    let full = input.full_plan();
    let capped = input.capped_plan();
    let plan = input.continuity_plan();
    plan_laws::lemma_covered_has_no_upgrade(input);
    lemma_tier_of(input, k);
    lemma_no_hole(input, Seq::empty(), from as int, 0, k, t);
    lemma_kept(capped, t);
    if !at_server(input, t) {
        let j = choose|j: int| 0 <= j <= k && (#[trigger] plan[j]).seq == t;
        assert(full[j] == plan[j]);
        assert(capped[j] == full[j]);
        assert(sends(capped, t));
    }
}

/// The continuity uploads of the whole plan are those of the continuity tier.
proof fn lemma_tier_of(input: &SchedulerInput, k: int)
    requires
        0 <= k < input.full_plan().len(),
        input.full_plan()[k].reason == UploadReason::Continuity,
    ensures
        k < input.continuity_plan().len(),
{
    let a = input.continuity_plan();
    let b = input.covered_plan();
    lemma_continuity_first(input);
    if k >= a.len() {
        if k < b.len() {
            lemma_live_edge_adds(input, a, input.live_edge_start(), k);
        } else {
            lemma_upgrades_add(input, b, input.already_fed() + 1, k);
        }
    }
}

proof fn lemma_live_edge_adds(input: &SchedulerInput, plan: Seq<UploadAction>, at: int, k: int)
    requires
        plan.len() <= k < input.live_edge_from(plan, at).len(),
    ensures
        input.live_edge_from(plan, at)[k].reason == UploadReason::LiveEdge,
    decreases input.encoded() + 1 - at,
{
    if at > input.encoded() {
    } else if input.server_has(at) || scheduler::plans(plan, at) {
        lemma_live_edge_adds(input, plan, at + 1, k);
    } else if let Some(rung) = input.fill_rung(plan, at, !scheduler::is_unknown(input.server)) {
        if input.fits(
            scheduler::plan_kbps(input.profile, plan) + input.profile.spec_bitrate_of(rung),
        ) {
            let next = plan.push(input.live_edge_action(at, rung));
            if k < next.len() {
                input.lemma_live_edge_extends(next, at + 1);
                lemma_prefix_index(next, input.live_edge_from(next, at + 1));
            } else {
                lemma_live_edge_adds(input, next, at + 1, k);
            }
        }
    } else {
        lemma_live_edge_adds(input, plan, at + 1, k);
    }
}

proof fn lemma_upgrades_add(input: &SchedulerInput, plan: Seq<UploadAction>, at: int, k: int)
    requires
        plan.len() <= k < input.upgrades_from(plan, at, input.upgrade_end()).len(),
    ensures
        input.upgrades_from(plan, at, input.upgrade_end())[k].reason == UploadReason::Upgrade,
    decreases input.upgrade_end() + 1 - at,
{
    let end = input.upgrade_end();
    if at > end {
    } else if scheduler::plans(plan, at) {
        lemma_upgrades_add(input, plan, at + 1, k);
    } else if let Some(rung) = input.upgrade_rung(at) {
        if input.fits(
            scheduler::plan_kbps(input.profile, plan) + input.profile.spec_bitrate_of(rung),
        ) {
            let next = plan.push(input.upgrade_action(at, rung));
            if k < next.len() {
                input.lemma_upgrades_extend(next, at + 1, end);
                lemma_prefix_index(next, input.upgrades_from(next, at + 1, end));
            } else {
                lemma_upgrades_add(input, next, at + 1, k);
            }
        }
    } else {
        lemma_upgrades_add(input, plan, at + 1, k);
    }
}

/// Up to each action of the continuity tier, every segment is at the server or in the
/// tier before it.
proof fn lemma_no_hole(
    input: &SchedulerInput,
    plan: Seq<UploadAction>,
    at: int,
    lead_ms: int,
    k: int,
    t: int,
)
    requires
        input.anchor() <= at,
        0 <= k < input.continuity_from(plan, at, lead_ms).len(),
        input.anchor() <= t <= input.continuity_from(plan, at, lead_ms)[k].seq,
        forall|i: int| 0 <= i < plan.len() ==> (#[trigger] plan[i]).seq < at,
        forall|i: int, j: int| 0 <= i < j < plan.len() ==> (#[trigger] plan[i]).seq < (
        #[trigger] plan[j]).seq,
        forall|u: int|
            input.anchor() <= u < at ==> #[trigger] input.server_has(u) || scheduler::plans(plan, u),
    ensures
        input.server_has(t) || exists|j: int|
            0 <= j <= k && (#[trigger] input.continuity_from(plan, at, lead_ms)[j]).seq == t,
    decreases input.encoded() + 1 - at,
{
    let full = input.continuity_from(plan, at, lead_ms);
    if lead_ms >= input.server.water.high_ms || at > input.encoded() {
        assert(full == plan);
        lemma_no_hole_base(input, plan, at, k, t);
    } else if input.server_has(at) {
        assert forall|u: int| input.anchor() <= u < at + 1 implies #[trigger] input.server_has(u)
            || scheduler::plans(plan, u) by {}
        lemma_no_hole(input, plan, at + 1, lead_ms + input.seg_ms(), k, t);
    } else if let Some(rung) = input.fill_rung(plan, at, input.prefers_quality()) {
        let a = input.continuity_action(at, rung);
        let next = plan.push(a);
        assert(next[plan.len() as int].seq == at);
        assert forall|u: int| input.anchor() <= u < at + 1 implies #[trigger] input.server_has(u)
            || scheduler::plans(next, u) by {
            if u < at && !input.server_has(u) {
                let j = choose|j: int| 0 <= j < plan.len() && (#[trigger] plan[j]).seq == u;
                assert(next[j].seq == u);
            }
        }
        lemma_no_hole(input, next, at + 1, lead_ms + input.seg_ms(), k, t);
    } else {
        assert(full == plan);
        lemma_no_hole_base(input, plan, at, k, t);
    }
}

proof fn lemma_no_hole_base(
    input: &SchedulerInput,
    plan: Seq<UploadAction>,
    at: int,
    k: int,
    t: int,
)
    requires
        0 <= k < plan.len(),
        input.anchor() <= t <= plan[k].seq < at,
        forall|i: int, j: int| 0 <= i < j < plan.len() ==> (#[trigger] plan[i]).seq < (
        #[trigger] plan[j]).seq,
        forall|u: int|
            input.anchor() <= u < at ==> #[trigger] input.server_has(u) || scheduler::plans(plan, u),
    ensures
        input.server_has(t) || exists|j: int| 0 <= j <= k && (#[trigger] plan[j]).seq == t,
{
    if !input.server_has(t) {
        assert(scheduler::plans(plan, t));
        let j = choose|j: int| 0 <= j < plan.len() && (#[trigger] plan[j]).seq == t;
        if j > k {
            assert(plan[k].seq < plan[j].seq);
        }
    }
}

/// Only continuity may go past what the link carries: a plan with any other upload is
/// within it as a whole.
pub proof fn law_the_link_carries_all_but_continuity(input: &SchedulerInput, i: int)
    requires
        0 <= i < plan_of(input).len(),
        plan_of(input)[i].reason != UploadReason::Continuity,
    ensures
        link_carries(input, sent_kbps(input.profile.rungs@, plan_of(input))),
{
    plan_laws::law_only_continuity_exceeds_the_budget(input, i);
    lemma_sent_kbps(input, plan_of(input));
}

/// The preferred rung is looked at where a hole is filled: by the live edge once the
/// server has been heard from, and by continuity where, besides, playout does not run.
pub open spec fn prefers(input: &SchedulerInput, reason: UploadReason) -> bool {
    &&& input.preferred_rung != first_rung(input)
    &&& !(input.server.rev == 0 && input.server.live_seq is None)
    &&& reason == UploadReason::LiveEdge || (reason == UploadReason::Continuity
        && input.server.playout.state != PlayoutState::Playing && input.server.playout.state
        != PlayoutState::Paused && input.server.playout.state != PlayoutState::Stalled)
}

/// In the order in which bandwidth is handed out, a hole is filled at the preferred rung
/// exactly where that is wanted, on disk, and carried by the link on top of what has been
/// handed out before; else at the first rung.
pub proof fn law_the_preferred_rung_is_used_while_it_fits(input: &SchedulerInput, k: int)
    requires
        0 <= k < input.capped_plan().len(),
        input.capped_plan()[k].reason != UploadReason::Upgrade,
    ensures
        ({
            let a = input.capped_plan()[k];
            let before = input.capped_plan().take(k);
            let rungs = input.profile.rungs@;
            let fits = link_carries(
                input,
                sent_kbps(rungs, before) + kbps_of(rungs, input.preferred_rung),
            );
            if prefers(input, a.reason) && on_disk(input, a.seq as int, input.preferred_rung)
                && fits {
                a.rung == input.preferred_rung
            } else {
                a.rung == first_rung(input)
            }
        }),
{
    let full = input.full_plan();
    let capped = input.capped_plan();
    lemma_continuity_first(input);
    plan_laws::lemma_full_plan(input);
    assert(capped[k] == full[k]);
    assert(capped.take(k) =~= full.take(k));
    let a = full[k];
    let before = full.take(k);
    let rungs = input.profile.rungs@;
    lemma_sent_kbps(input, before);
    lemma_kbps_of(rungs, input.preferred_rung);
    let c = input.continuity_plan();
    let b = input.covered_plan();
    if k < c.len() {
        lemma_continuity_choice(input, Seq::empty(), input.anchor(), 0, k);
        assert(c.take(k) =~= before);
    } else if k < b.len() {
        lemma_live_edge_choice(input, c, input.live_edge_start(), k);
        assert(b.take(k) =~= before);
    } else {
        lemma_upgrades_add(input, b, input.already_fed() + 1, k);
    }
}

proof fn lemma_continuity_choice(
    input: &SchedulerInput,
    plan: Seq<UploadAction>,
    at: int,
    lead_ms: int,
    k: int,
)
    requires
        0 <= at,
        plan.len() <= k < input.continuity_from(plan, at, lead_ms).len(),
    ensures
        ({
            let full = input.continuity_from(plan, at, lead_ms);
            &&& full[k].reason == UploadReason::Continuity
            &&& input.fill_rung(full.take(k), full[k].seq as int, input.prefers_quality()) == Some(
                full[k].rung,
            )
        }),
    decreases input.encoded() + 1 - at,
{
    let full = input.continuity_from(plan, at, lead_ms);
    if lead_ms >= input.server.water.high_ms || at > input.encoded() {
    } else if input.server_has(at) {
        lemma_continuity_choice(input, plan, at + 1, lead_ms + input.seg_ms(), k);
    } else if let Some(rung) = input.fill_rung(plan, at, input.prefers_quality()) {
        let next = plan.push(input.continuity_action(at, rung));
        if k < next.len() {
            input.lemma_continuity_extends(next, at + 1, lead_ms + input.seg_ms());
            lemma_prefix_index(next, full);
            assert(full.take(k) =~= plan);
            assert(full[k] == next[k]);
        } else {
            lemma_continuity_choice(input, next, at + 1, lead_ms + input.seg_ms(), k);
        }
    }
}

proof fn lemma_live_edge_choice(
    input: &SchedulerInput,
    plan: Seq<UploadAction>,
    at: int,
    k: int,
)
    requires
        0 <= at,
        plan.len() <= k < input.live_edge_from(plan, at).len(),
    ensures
        ({
            let full = input.live_edge_from(plan, at);
            &&& full[k].reason == UploadReason::LiveEdge
            &&& input.fill_rung(
                full.take(k),
                full[k].seq as int,
                !scheduler::is_unknown(input.server),
            ) == Some(full[k].rung)
        }),
    decreases input.encoded() + 1 - at,
{
    let full = input.live_edge_from(plan, at);
    if at > input.encoded() {
    } else if input.server_has(at) || scheduler::plans(plan, at) {
        lemma_live_edge_choice(input, plan, at + 1, k);
    } else if let Some(rung) = input.fill_rung(plan, at, !scheduler::is_unknown(input.server)) {
        if input.fits(
            scheduler::plan_kbps(input.profile, plan) + input.profile.spec_bitrate_of(rung),
        ) {
            let next = plan.push(input.live_edge_action(at, rung));
            if k < next.len() {
                input.lemma_live_edge_extends(next, at + 1);
                lemma_prefix_index(next, full);
                assert(full.take(k) =~= plan);
                assert(full[k] == next[k]);
            } else {
                lemma_live_edge_choice(input, next, at + 1, k);
            }
        }
    } else {
        lemma_live_edge_choice(input, plan, at + 1, k);
    }
}

/// A segment blocks playout for good exactly if the server has everything from where it
/// needs it up to there, the encoder has moved past it, and neither end has it.
pub proof fn law_a_blocking_segment_is_out_of_reach(
    input: &SchedulerInput,
    from: SeqNo,
    seq: SeqNo,
)
    requires
        needed_from(input, from),
    ensures
        scheduler::first_hole(input.server, input.inv, seq as int) && !input.inv.holds(
            seq as int,
            input.profile.spec_low_rung(),
        ) <==> {
            &&& from <= seq < input.inv.encoded_seq
            &&& forall|t: int| from <= t < seq ==> #[trigger] at_server(input, t)
            &&& !securable(input, seq as int)
        },
{
    lemma_anchor(input, from);
    if scheduler::first_hole(input.server, input.inv, seq as int) {
        assert forall|t: int| from <= t < seq implies #[trigger] at_server(input, t) by {
            assert(input.inv.best_at_server(t) is Some);
        }
    }
    if forall|t: int| from <= t < seq ==> #[trigger] at_server(input, t) {
        assert forall|t: int| from <= t < seq implies #[trigger] input.inv.best_at_server(
            t,
        ) is Some by {
            assert(at_server(input, t));
        }
    }
}

} // verus!
