//! What holds of every DVR store.

use vstd::prelude::*;

use crate::state::{EncoderState, PlayoutState, PlayoutStatus, RungId, SeqNo, ServerState};
use crate::store::{self, DvrStore, Holdings};
use crate::text;

verus! {

/// Eviction never drops a segment at or after the playout head.
pub proof fn law_eviction_spares_the_playout_head(
    held: Holdings,
    kept: Holdings,
    window: Option<u64>,
    head: SeqNo,
    seq: SeqNo,
)
    requires
        store::is_trimmed(held, kept, store::window_floor(held, window, Some(head))),
        held.contains_key(seq),
        seq >= head,
    ensures
        kept.contains_key(seq),
        kept[seq] == held[seq],
{
    assert(kept.contains_key(seq));
}

/// The newest segment survives every eviction, so the live edge never moves
/// back.
pub proof fn law_eviction_spares_the_live_edge(
    held: Holdings,
    kept: Holdings,
    window: Option<u64>,
    head: Option<SeqNo>,
)
    requires
        store::is_trimmed(held, kept, store::window_floor(held, window, head)),
    ensures
        store::newest(kept) == store::newest(held),
{
    if store::newest(held) is Some {
        let live = choose|s: SeqNo| store::is_newest(held, s);
        assert(store::is_newest(held, live));
        assert(store::newest(held) == Some(live));
        assert(kept.contains_key(live));
        assert(store::is_newest(kept, live));
        let other = choose|s: SeqNo| store::is_newest(kept, s);
        store::lemma_ends_unique(kept, live, other);
    } else {
        assert(forall|s: SeqNo| !store::is_newest(held, s));
        assert(store::window_floor(held, window, head) == 0);
        assert forall|s: SeqNo| !store::is_newest(kept, s) by {
            if store::is_newest(kept, s) {
                assert forall|t: SeqNo| #[trigger] held.contains_key(t) implies t <= s by {
                    assert(kept.contains_key(t));
                }
                assert(store::is_newest(held, s));
            }
        }
    }
}

/// Without a playout head to spare, nothing older than the window stays.
pub proof fn law_window_bounds_the_history(
    held: Holdings,
    kept: Holdings,
    segs: u64,
    live: SeqNo,
    seq: SeqNo,
)
    requires
        store::is_trimmed(held, kept, store::window_floor(held, Some(segs), None)),
        store::newest(held) == Some(live),
        kept.contains_key(seq),
    ensures
        seq + segs >= live,
{
}

/// An unbounded window keeps everything.
pub proof fn law_unbounded_window_evicts_nothing(
    held: Holdings,
    kept: Holdings,
    head: Option<SeqNo>,
)
    requires
        store::is_trimmed(held, kept, store::window_floor(held, None, head)),
    ensures
        kept == held,
{
    assert(kept =~= held);
}

/// What is reaped and what is kept are the two parts of what was held.
pub proof fn law_reaped_or_kept(
    held: Holdings,
    kept: Holdings,
    floor: int,
    pairs: Seq<(SeqNo, RungId)>,
    seq: SeqNo,
    rung: RungId,
)
    requires
        store::is_trimmed(held, kept, floor),
        store::lists_below(pairs, held, floor),
        held.contains_key(seq) && held[seq].contains(rung),
    ensures
        pairs.contains((seq, rung)) <==> !(kept.contains_key(seq) && kept[seq].contains(rung)),
{
}

/// The settled run is contiguous, and ends at the live edge or before the first
/// segment that is neither on disk nor given up.
pub proof fn law_frontier_is_contiguous(
    held: Holdings,
    given_up: Set<SeqNo>,
    start: int,
    live: int,
)
    ensures
        forall|s: int|
            start <= s < start + store::settled_run(held, given_up, start, live)
                ==> #[trigger] store::settled(held, given_up, s) && s <= live,
        start + store::settled_run(held, given_up, start, live) > live || !store::settled(
            held,
            given_up,
            start + store::settled_run(held, given_up, start, live),
        ),
    decreases live + 1 - start,
{
    if start <= live && store::settled(held, given_up, start) {
        law_frontier_is_contiguous(held, given_up, start + 1, live);
        let run = store::settled_run(held, given_up, start, live);
        let rest = store::settled_run(held, given_up, start + 1, live);
        assert(run == rest + 1);
        assert(start + run == start + 1 + rest);
        assert forall|s: int| start <= s < start + run implies s <= live
            && #[trigger] store::settled(held, given_up, s) by {
            if s > start {
                assert(store::settled(held, given_up, s));
            }
        }
        assert(start + run > live || !store::settled(held, given_up, start + 1 + rest));
    } else {
        let run = store::settled_run(held, given_up, start, live);
        assert(start + run == start);
        assert(start > live || !store::settled(held, given_up, start));
    }
}

/// Giving segments up never shortens the settled run.
pub proof fn law_abandoning_never_shortens_the_frontier(
    held: Holdings,
    given_up: Set<SeqNo>,
    more: Set<SeqNo>,
    start: int,
    live: int,
)
    ensures
        store::settled_run(held, given_up, start, live) <= store::settled_run(
            held,
            given_up + more,
            start,
            live,
        ),
    decreases live + 1 - start,
{
    if start <= live && store::settled(held, given_up, start) {
        law_abandoning_never_shortens_the_frontier(held, given_up, more, start + 1, live);
    }
}

/// Giving up the segment that the run stopped at carries the run past it.
pub proof fn law_abandoning_the_gap_heals_the_frontier(
    held: Holdings,
    given_up: Set<SeqNo>,
    start: int,
    live: int,
)
    requires
        0 <= start,
        live <= u64::MAX,
        start + store::settled_run(held, given_up, start, live) <= live,
    ensures
        ({
            let run = store::settled_run(held, given_up, start, live);
            let gap = (start + run) as u64;
            store::settled_run(held, given_up.insert(gap), start, live) > run
        }),
    decreases live + 1 - start,
{
    let run = store::settled_run(held, given_up, start, live);
    let healed = given_up.insert((start + run) as u64);
    if store::settled(held, given_up, start) {
        law_abandoning_the_gap_heals_the_frontier(held, given_up, start + 1, live);
        assert(store::settled(held, healed, start));
    } else {
        assert(store::settled(held, healed, start));
    }
}

/// A buffer request that playout was started for once does not start it again;
/// asking for another buffer does.
pub proof fn law_auto_start_fires_once_per_request(
    before: &DvrStore,
    after: &DvrStore,
    target: u32,
)
    requires
        before.auto_start_target() == Some(target),
        before.auto_start_seq() is Some,
        after.auto_started() == Some(target),
        after.held() == before.held(),
        after.given_up() == before.given_up(),
        after.profile_of() == before.profile_of(),
    ensures
        after.auto_start_target() == Some(target) ==> after.auto_start_seq() is None,
        forall|other: u32|
            other != target && after.auto_start_target() == Some(other) && before.history_ms()
                >= other ==> after.auto_start_seq() == before.auto_start_seq(),
{
}

/// Playout is never started before the requested buffer is there.
pub proof fn law_auto_start_waits_for_the_buffer(s: &DvrStore)
    requires
        s.auto_start_seq() is Some,
    ensures
        s.auto_start_target() is Some,
        s.history_ms() >= s.auto_start_target()->0,
        s.auto_start_seq() == store::oldest(s.held()),
{
}

/// Playout that starts on its own starts with the whole buffer ahead of it: at
/// least what the encoder asked for.
pub proof fn law_auto_start_leads_by_the_buffer(
    s: &DvrStore,
    seq: SeqNo,
    playout: PlayoutStatus,
    state: ServerState,
)
    requires
        s.auto_start_seq() == Some(seq),
        playout.state == PlayoutState::Playing || playout.state == PlayoutState::Stalled,
        playout.position_seq == Some(seq),
        s.tells(playout, state),
    ensures
        state.lead_ms == state.buffered_ms,
        state.lead_ms >= s.auto_start_target()->0,
{
}

proof fn lemma_run_bound(held: Holdings, given_up: Set<SeqNo>, start: int, live: int)
    ensures
        start <= live ==> store::settled_run(held, given_up, start, live) <= live + 1 - start,
        start > live ==> store::settled_run(held, given_up, start, live) == 0,
    decreases live + 1 - start,
{
    if start <= live && store::settled(held, given_up, start) {
        lemma_run_bound(held, given_up, start + 1, live);
    }
}

/// Without a playout head to spare, no more is buffered than the window and the
/// newest segment: a start on its own that waits for more never comes.
pub proof fn law_window_bounds_the_buffer(s: &DvrStore, held: Holdings, segs: u64)
    requires
        store::is_trimmed(held, s.held(), store::window_floor(held, Some(segs), None)),
    ensures
        s.history_ms() <= (segs + 1) * s.profile_of().segment_ms,
        s.auto_start_target() matches Some(target) ==> (target > (segs + 1)
            * s.profile_of().segment_ms ==> s.auto_start_seq() is None),
{
    if let (Some(start), Some(live)) = (store::oldest(s.held()), store::newest(s.held())) {
        law_eviction_spares_the_live_edge(held, s.held(), Some(segs), None);
        assert(store::is_oldest(s.held(), start));
        assert(s.held().contains_key(start));
        assert(store::newest(held) == Some(live));
        assert(store::is_newest(held, live));
        assert(held.contains_key(start));
        lemma_run_bound(s.held(), s.given_up(), start as int, live as int);
        let run = s.run_from(start as int) as int;
        let ms = s.profile_of().segment_ms as int;
        assert(run * ms <= (segs + 1) * ms) by (nonlinear_arith)
            requires
                run <= segs + 1,
                0 <= ms,
        ;
    } else {
        assert(0 <= (segs + 1) * s.profile_of().segment_ms) by (nonlinear_arith);
    }
}

proof fn lemma_decimal_has_no_slash(n: nat)
    ensures
        forall|i: int| 0 <= i < text::decimal(n).len() ==> #[trigger] text::decimal(n)[i] != '/',
    decreases n,
{
    if n >= 10 {
        lemma_decimal_has_no_slash(n / 10);
        assert forall|i: int| 0 <= i < text::decimal(n).len() implies #[trigger] text::decimal(
            n,
        )[i] != '/' by {
            if i < text::decimal(n / 10).len() {
                assert(text::decimal(n)[i] == text::decimal(n / 10)[i]);
            }
        }
    }
}

proof fn lemma_same_before_slash(a: Seq<char>, b: Seq<char>, x: Seq<char>, y: Seq<char>)
    requires
        forall|i: int| 0 <= i < a.len() ==> #[trigger] a[i] != '/',
        forall|i: int| 0 <= i < b.len() ==> #[trigger] b[i] != '/',
        a + seq!['/'] + x == b + seq!['/'] + y,
    ensures
        a == b,
        x == y,
{
    let l = a + seq!['/'] + x;
    let r = b + seq!['/'] + y;
    if a.len() < b.len() {
        assert(l[a.len() as int] == '/');
        assert(r[a.len() as int] == b[a.len() as int]);
    } else if b.len() < a.len() {
        assert(r[b.len() as int] == '/');
        assert(l[b.len() as int] == a[b.len() as int]);
    }
    assert forall|i: int| 0 <= i < a.len() implies a[i] == b[i] by {
        assert(l[i] == a[i]);
        assert(r[i] == b[i]);
    }
    assert(a =~= b);
    assert(l.len() == a.len() + 1 + x.len());
    assert(r.len() == b.len() + 1 + y.len());
    assert forall|i: int| 0 <= i < x.len() implies x[i] == y[i] by {
        assert(l[a.len() + 1 + i] == x[i]);
        assert(r[b.len() + 1 + i] == y[i]);
    }
    assert(x =~= y);
}

/// Every pair of rung and segment has a file of its own.
pub proof fn law_segment_files_are_distinct(
    dir: Seq<char>,
    rung_a: RungId,
    seq_a: SeqNo,
    rung_b: RungId,
    seq_b: SeqNo,
)
    requires
        store::segment_file(dir, rung_a, seq_a) == store::segment_file(dir, rung_b, seq_b),
    ensures
        rung_a == rung_b,
        seq_a == seq_b,
{
    reveal_strlit("/");
    let prefix = store::dir_prefix(dir);
    let ra = text::decimal(rung_a as nat);
    let rb = text::decimal(rung_b as nat);
    let sa = text::decimal(seq_a as nat);
    let sb = text::decimal(seq_b as nat);
    let fa = store::segment_file(dir, rung_a, seq_a);
    let fb = store::segment_file(dir, rung_b, seq_b);
    let x = sa + ".ts"@;
    let y = sb + ".ts"@;
    lemma_decimal_has_no_slash(rung_a as nat);
    lemma_decimal_has_no_slash(rung_b as nat);
    assert("/"@ =~= seq!['/']);
    assert(fa.skip(prefix.len() as int) =~= ra + seq!['/'] + x);
    assert(fb.skip(prefix.len() as int) =~= rb + seq!['/'] + y);
    lemma_same_before_slash(ra, rb, x, y);
    text::law_decimal_is_injective(rung_a as nat, rung_b as nat);
    assert(sa.len() == sb.len()) by {
        assert(x.len() == sa.len() + ".ts"@.len());
        assert(y.len() == sb.len() + ".ts"@.len());
    }
    assert(sa =~= x.take(sa.len() as int));
    assert(sb =~= y.take(sb.len() as int));
    text::law_decimal_is_injective(seq_a as nat, seq_b as nat);
}

/// Sending a segment again is safe: the second time nothing changes that is held,
/// whether the first time has stayed or has left the window at once.
pub proof fn law_sending_again_changes_nothing(
    held: Holdings,
    kept: Holdings,
    again: Holdings,
    window: Option<u64>,
    head: Option<SeqNo>,
    rung: RungId,
    seq: SeqNo,
)
    requires
        ({
            let added = store::with_rung(held, rung, seq);
            store::is_trimmed(added, kept, store::window_floor(added, window, head))
        }),
        kept.contains_key(seq) && kept[seq].contains(rung) ==> again == kept,
        !(kept.contains_key(seq) && kept[seq].contains(rung)) ==> ({
            let added = store::with_rung(kept, rung, seq);
            store::is_trimmed(added, again, store::window_floor(added, window, head))
        }),
    ensures
        again == kept,
{
    let added = store::with_rung(held, rung, seq);
    let floor = store::window_floor(added, window, head);
    assert(added.contains_key(seq));
    if !(kept.contains_key(seq) && kept[seq].contains(rung)) {
        assert(seq < floor) by {
            if seq >= floor {
                assert(kept.contains_key(seq));
                assert(kept[seq] == added[seq]);
                assert(added[seq].contains(rung));
            }
        }
        law_eviction_spares_the_live_edge(added, kept, window, head);
        let live = choose|s: SeqNo| store::is_newest(added, s);
        assert(store::newest(added) is Some);
        assert(store::is_newest(added, live));
        assert(live >= floor);
        assert(kept.contains_key(live));
        let second = store::with_rung(kept, rung, seq);
        assert(store::is_newest(second, live)) by {
            assert forall|t: SeqNo| #[trigger] second.contains_key(t) implies t <= live by {
                if t != seq {
                    assert(kept.contains_key(t));
                    assert(added.contains_key(t));
                }
            }
        }
        let other = choose|s: SeqNo| store::is_newest(second, s);
        store::lemma_ends_unique(second, live, other);
        assert(store::window_floor(second, window, head) == floor);
        assert forall|s: SeqNo| again.contains_key(s) <==> kept.contains_key(s) by {
            if kept.contains_key(s) {
                assert(second.contains_key(s));
            }
            if again.contains_key(s) {
                assert(second.contains_key(s));
                assert(s != seq);
            }
        }
        assert forall|s: SeqNo| #[trigger] again.contains_key(s) implies again[s] == kept[s] by {
            assert(s != seq);
        }
        assert(again =~= kept);
    }
}

/// Recording what is there already changes nothing: nothing is reaped, and the
/// encoder is told what it was told before, the revision included.
pub proof fn law_recording_what_is_held_changes_nothing(
    before: &DvrStore,
    after: &DvrStore,
    rung: RungId,
    seq: SeqNo,
    head: Option<SeqNo>,
    reaped: Seq<(SeqNo, RungId)>,
    playout: PlayoutStatus,
    state: ServerState,
)
    requires
        before.holds(rung, seq),
        before.records(rung, seq, head, reaped, after),
    ensures
        reaped.len() == 0,
        after.held() == before.held(),
        after.given_up() == before.given_up(),
        after.telemetry() == before.telemetry(),
        before.tells(playout, state) <==> after.tells(playout, state),
{
}

/// One change of a store.
pub ghost enum StoreStep {
    /// A segment arrives, with the playout head at `head`; `reaped` leaves.
    Record { rung: RungId, seq: SeqNo, head: Option<SeqNo>, reaped: Seq<(SeqNo, RungId)> },
    /// Segments are given up.
    Abandon { seqs: Seq<SeqNo> },
    /// Telemetry of the encoder arrives.
    Heartbeat { state: EncoderState },
}

/// The step leads from one store to the next.
pub open spec fn steps_to(before: &DvrStore, step: StoreStep, after: &DvrStore) -> bool {
    match step {
        StoreStep::Record { rung, seq, head, reaped } => before.records(
            rung,
            seq,
            head,
            reaped,
            after,
        ),
        StoreStep::Abandon { seqs } => before.gives_up(seqs, after),
        StoreStep::Heartbeat { state } => before.hears(state, after),
    }
}

/// The steps lead through the stores, one after the other.
pub open spec fn is_history(stores: Seq<DvrStore>, steps: Seq<StoreStep>) -> bool {
    &&& stores.len() == steps.len() + 1
    &&& forall|i: int|
        0 <= i < steps.len() ==> steps_to(&stores[i], #[trigger] steps[i], &stores[i + 1])
}

/// The step records the pair.
pub open spec fn records_pair(step: StoreStep, seq: SeqNo, rung: RungId) -> bool {
    step is Record && step->seq == seq && step->rung == rung
}

/// The step hands the pair over for deletion.
pub open spec fn reaps_pair(step: StoreStep, seq: SeqNo, rung: RungId) -> bool {
    step is Record && step->reaped.contains((seq, rung))
}

/// Some step records the pair.
pub open spec fn was_recorded(steps: Seq<StoreStep>, seq: SeqNo, rung: RungId) -> bool {
    exists|i: int| 0 <= i < steps.len() && records_pair(#[trigger] steps[i], seq, rung)
}

/// Some step hands the pair over for deletion.
pub open spec fn was_reaped(steps: Seq<StoreStep>, seq: SeqNo, rung: RungId) -> bool {
    exists|i: int| 0 <= i < steps.len() && reaps_pair(#[trigger] steps[i], seq, rung)
}

/// No pair is recorded twice.
pub open spec fn records_once(steps: Seq<StoreStep>) -> bool {
    forall|i: int, j: int|
        #![trigger steps[i], steps[j]]
        0 <= i < j < steps.len() && steps[i] is Record && steps[j] is Record ==> (
        steps[i]->seq, steps[i]->rung) != (steps[j]->seq, steps[j]->rung)
}

/// Whatever is recorded, in whatever order and with segments given up in between:
/// what was recorded is either still held or was handed over for deletion, never
/// both. Nothing leaves the store unseen, and nothing that is held is handed over.
pub proof fn law_recorded_is_held_or_reaped(
    stores: Seq<DvrStore>,
    steps: Seq<StoreStep>,
    seq: SeqNo,
    rung: RungId,
)
    requires
        is_history(stores, steps),
        stores[0].held() == Holdings::empty(),
        records_once(steps),
    ensures
        was_recorded(steps, seq, rung) <==> stores.last().holds(rung, seq) || was_reaped(
            steps,
            seq,
            rung,
        ),
        !(stores.last().holds(rung, seq) && was_reaped(steps, seq, rung)),
    decreases steps.len(),
{
    if steps.len() > 0 {
        let n = steps.len() - 1;
        let front = steps.drop_last();
        let earlier = stores.drop_last();
        let before = stores[n];
        let after = stores[n + 1];
        let step = steps[n];
        assert forall|i: int| 0 <= i < front.len() implies steps_to(
            &earlier[i],
            #[trigger] front[i],
            &earlier[i + 1],
        ) by {
            assert(front[i] == steps[i]);
        }
        assert(is_history(earlier, front));
        assert(earlier.last() == before);
        assert(records_once(front)) by {
            assert forall|i: int, j: int|
                #![trigger front[i], front[j]]
                0 <= i < j < front.len() && front[i] is Record && front[j] is Record implies (
            front[i]->seq, front[i]->rung) != (front[j]->seq, front[j]->rung) by {
                assert(front[i] == steps[i] && front[j] == steps[j]);
            }
        }
        law_recorded_is_held_or_reaped(earlier, front, seq, rung);
        lemma_last_step(steps, seq, rung);
        assert(steps_to(&before, step, &after));
        if let StoreStep::Record { rung: r, seq: q, head, reaped } = step {
            law_recorded_is_held_or_reaped(earlier, front, q, r);
            assert(!was_recorded(front, q, r)) by {
                if was_recorded(front, q, r) {
                    let i = choose|i: int|
                        0 <= i < front.len() && records_pair(#[trigger] front[i], q, r);
                    assert(steps[i] == front[i]);
                }
            }
            assert(!before.holds(r, q));
            let added = store::with_rung(before.held(), r, q);
            let floor = store::window_floor(added, before.window(), head);
            let in_added = added.contains_key(seq) && added[seq].contains(rung);
            assert(in_added <==> before.holds(rung, seq) || (seq == q && rung == r));
            assert(reaped.contains((seq, rung)) <==> seq < floor && in_added);
            assert(after.held().contains_key(seq) <==> added.contains_key(seq) && seq >= floor);
            assert(after.held().contains_key(seq) ==> after.held()[seq] == added[seq]);
            assert(after.holds(rung, seq) <==> seq >= floor && in_added);
        }
    } else {
        assert(!stores[0].held().contains_key(seq));
    }
}

/// What a list of steps records and reaps is what its first steps and its last one
/// do.
proof fn lemma_last_step(steps: Seq<StoreStep>, seq: SeqNo, rung: RungId)
    requires
        steps.len() > 0,
    ensures
        was_recorded(steps, seq, rung) <==> was_recorded(steps.drop_last(), seq, rung)
            || records_pair(steps.last(), seq, rung),
        was_reaped(steps, seq, rung) <==> was_reaped(steps.drop_last(), seq, rung) || reaps_pair(
            steps.last(),
            seq,
            rung,
        ),
{
    let front = steps.drop_last();
    let n = steps.len() - 1;
    assert(steps[n] == steps.last());
    if was_recorded(front, seq, rung) {
        let i = choose|i: int| 0 <= i < front.len() && records_pair(#[trigger] front[i], seq, rung);
        assert(steps[i] == front[i]);
    }
    if was_recorded(steps, seq, rung) {
        let i = choose|i: int| 0 <= i < steps.len() && records_pair(#[trigger] steps[i], seq, rung);
        if i < n {
            assert(steps[i] == front[i]);
        }
    }
    if was_reaped(front, seq, rung) {
        let i = choose|i: int| 0 <= i < front.len() && reaps_pair(#[trigger] front[i], seq, rung);
        assert(steps[i] == front[i]);
    }
    if was_reaped(steps, seq, rung) {
        let i = choose|i: int| 0 <= i < steps.len() && reaps_pair(#[trigger] steps[i], seq, rung);
        if i < n {
            assert(steps[i] == front[i]);
        }
    }
}

/// The first steps of a history are one.
proof fn lemma_history_prefix(stores: Seq<DvrStore>, steps: Seq<StoreStep>, n: int)
    requires
        is_history(stores, steps),
        0 <= n <= steps.len(),
    ensures
        is_history(stores.take(n + 1), steps.take(n)),
        stores.take(n + 1).last() == stores[n],
        records_once(steps) ==> records_once(steps.take(n)),
{
    let first = steps.take(n);
    let through = stores.take(n + 1);
    assert forall|i: int| 0 <= i < first.len() implies steps_to(
        &through[i],
        #[trigger] first[i],
        &through[i + 1],
    ) by {
        assert(first[i] == steps[i]);
    }
    if records_once(steps) {
        assert forall|i: int, j: int|
            #![trigger first[i], first[j]]
            0 <= i < j < first.len() && first[i] is Record && first[j] is Record implies (
        first[i]->seq, first[i]->rung) != (first[j]->seq, first[j]->rung) by {
            assert(first[i] == steps[i] && first[j] == steps[j]);
        }
    }
}

/// No file is handed over for deletion twice, by the same step or by two.
pub proof fn law_no_file_is_reaped_twice(
    stores: Seq<DvrStore>,
    steps: Seq<StoreStep>,
    dir: Seq<char>,
    i: int,
    a: int,
    j: int,
    b: int,
)
    requires
        is_history(stores, steps),
        stores[0].held() == Holdings::empty(),
        records_once(steps),
        0 <= i <= j < steps.len(),
        steps[i] is Record && 0 <= a < steps[i]->reaped.len(),
        steps[j] is Record && 0 <= b < steps[j]->reaped.len(),
        store::segment_file(dir, steps[i]->reaped[a].1, steps[i]->reaped[a].0)
            == store::segment_file(dir, steps[j]->reaped[b].1, steps[j]->reaped[b].0),
    ensures
        i == j,
        a == b,
{
    let (seq, rung) = steps[i]->reaped[a];
    let pair = steps[j]->reaped[b];
    law_segment_files_are_distinct(dir, rung, seq, pair.1, pair.0);
    assert(pair == (seq, rung));
    assert(steps_to(&stores[j], steps[j], &stores[j + 1]));
    assert(steps[j]->reaped.contains((seq, rung)));
    if i < j {
        let first = steps.take(j);
        let through = stores.take(j + 1);
        lemma_history_prefix(stores, steps, j);
        assert(through[0] == stores[0]);
        law_recorded_is_held_or_reaped(through, first, seq, rung);
        assert(first[i] == steps[i]);
        assert(reaps_pair(first[i], seq, rung));
        let k = choose|k: int| 0 <= k < first.len() && records_pair(#[trigger] first[k], seq, rung);
        assert(first[k] == steps[k]);
        assert(!stores[j].holds(rung, seq));
    }
}

/// The step from store `i` adds a pair or a mark.
pub open spec fn adds_something(stores: Seq<DvrStore>, i: int) -> bool {
    ||| exists|rung: RungId, seq: SeqNo| #[trigger]
        stores[i + 1].holds(rung, seq) && !stores[i].holds(rung, seq)
    ||| exists|seq: SeqNo| #[trigger]
        stores[i + 1].given_up().contains(seq) && !stores[i].given_up().contains(seq)
}

/// The revision never falls, whatever arrives, and grows when a segment or a mark
/// of one that was given up is added: who keeps the state with the highest revision
/// never takes a changed state for an old one.
pub proof fn law_revision_tells_changes(
    stores: Seq<DvrStore>,
    steps: Seq<StoreStep>,
    playout: PlayoutStatus,
    first: ServerState,
    last: ServerState,
)
    requires
        is_history(stores, steps),
        stores[0].tells(playout, first),
        stores.last().tells(playout, last),
    ensures
        last.rev >= first.rev,
        (exists|i: int| 0 <= i < steps.len() && #[trigger] adds_something(stores, i)) ==> last.rev
            > first.rev,
{
    lemma_revision_grows(stores, steps);
}

proof fn lemma_revision_grows(stores: Seq<DvrStore>, steps: Seq<StoreStep>)
    requires
        is_history(stores, steps),
    ensures
        stores.last().revision() >= stores[0].revision(),
        (exists|i: int| 0 <= i < steps.len() && #[trigger] adds_something(stores, i))
            ==> stores.last().revision() > stores[0].revision(),
    decreases steps.len(),
{
    if steps.len() > 0 {
        let n = steps.len() - 1;
        let earlier = stores.take(n + 1);
        lemma_history_prefix(stores, steps, n);
        lemma_revision_grows(earlier, steps.take(n));
        assert(steps_to(&stores[n], steps[n], &stores[n + 1]));
        if adds_something(stores, n) {
            lemma_addition_is_told(stores, steps, n);
        }
        if exists|i: int| 0 <= i < steps.len() && #[trigger] adds_something(stores, i) {
            let i = choose|i: int| 0 <= i < steps.len() && #[trigger] adds_something(stores, i);
            if i < n {
                assert(earlier[i] == stores[i] && earlier[i + 1] == stores[i + 1]);
                assert(adds_something(earlier, i));
            }
        }
    }
}

/// A step that adds something raises the revision.
proof fn lemma_addition_is_told(stores: Seq<DvrStore>, steps: Seq<StoreStep>, n: int)
    requires
        is_history(stores, steps),
        0 <= n < steps.len(),
        adds_something(stores, n),
    ensures
        stores[n + 1].revision() > stores[n].revision(),
{
    let before = stores[n];
    let after = stores[n + 1];
    assert(steps_to(&before, steps[n], &after));
    if let StoreStep::Abandon { seqs } = steps[n] {
        if seqs.to_set().subset_of(before.given_up()) {
            assert(after.given_up() =~= before.given_up());
        }
    }
}

/// A segment that arrives evicts what is too old, playout or not: whatever is held
/// then is at or after the playout head, or no further behind the newest segment than
/// the window is long.
pub proof fn law_the_window_bounds_the_history_behind_the_head(
    before: &DvrStore,
    after: &DvrStore,
    rung: RungId,
    seq: SeqNo,
    head: Option<SeqNo>,
    reaped: Seq<(SeqNo, RungId)>,
    segs: u64,
    live: SeqNo,
    old: SeqNo,
)
    requires
        before.records(rung, seq, head, reaped, after),
        !(before.held().contains_key(seq) && before.held()[seq].contains(rung)),
        before.window() == Some(segs),
        store::is_newest(after.held(), live),
        after.held().contains_key(old),
    ensures
        old + segs >= live || (head matches Some(h) && old >= h),
{
    lemma_record_keeps_the_newest(before, after, rung, seq, head, reaped, live);
}

/// Nothing else is evicted: what was held, or has just come, and is held no more was
/// before the playout head and further behind the newest segment than the window is
/// long. It is handed over for deletion, every rung of it, and nothing else is.
pub proof fn law_only_what_left_the_window_is_evicted(
    before: &DvrStore,
    after: &DvrStore,
    rung: RungId,
    seq: SeqNo,
    head: Option<SeqNo>,
    reaped: Seq<(SeqNo, RungId)>,
    live: SeqNo,
    s: SeqNo,
    r: RungId,
)
    requires
        before.records(rung, seq, head, reaped, after),
        (before.held().contains_key(s) && before.held()[s].contains(r)) || (s == seq && r == rung),
        store::is_newest(after.held(), live),
    ensures
        reaped.contains((s, r)) <==> !(after.held().contains_key(s) && after.held()[s].contains(r)),
        reaped.contains((s, r)) ==> {
            &&& before.window() matches Some(segs) && s + segs < live
            &&& head matches Some(h) ==> s < h
        },
{
    if !before.holds(rung, seq) {
        lemma_record_keeps_the_newest(before, after, rung, seq, head, reaped, live);
        let added = store::with_rung(before.held(), rung, seq);
        let floor = store::window_floor(added, before.window(), head);
        assert(added.contains_key(s) && added[s].contains(r));
        assert(after.held().contains_key(s) <==> s >= floor);
        assert(reaped.contains((s, r)) <==> s < floor);
    } else {
        assert(!reaped.contains((s, r)));
    }
}

/// Nothing is held after a segment has arrived that was not held before, but for the
/// segment itself, at that rung.
pub proof fn law_recording_adds_one_pair_at_most(
    before: &DvrStore,
    after: &DvrStore,
    rung: RungId,
    seq: SeqNo,
    head: Option<SeqNo>,
    reaped: Seq<(SeqNo, RungId)>,
    s: SeqNo,
    r: RungId,
)
    requires
        before.records(rung, seq, head, reaped, after),
        after.held().contains_key(s) && after.held()[s].contains(r),
    ensures
        (before.held().contains_key(s) && before.held()[s].contains(r)) || (s == seq && r == rung),
{
}

proof fn lemma_record_keeps_the_newest(
    before: &DvrStore,
    after: &DvrStore,
    rung: RungId,
    seq: SeqNo,
    head: Option<SeqNo>,
    reaped: Seq<(SeqNo, RungId)>,
    live: SeqNo,
)
    requires
        before.records(rung, seq, head, reaped, after),
        !before.holds(rung, seq),
        store::is_newest(after.held(), live),
    ensures
        store::newest(store::with_rung(before.held(), rung, seq)) == Some(live),
{
    let added = store::with_rung(before.held(), rung, seq);
    law_eviction_spares_the_live_edge(added, after.held(), before.window(), head);
    let other = choose|s: SeqNo| store::is_newest(after.held(), s);
    store::lemma_ends_unique(after.held(), live, other);
}

/// What is given up stays given up, whatever arrives, until its own segment has come
/// and has left the window.
pub proof fn law_a_mark_lasts_as_long_as_its_segment(
    before: &DvrStore,
    after: &DvrStore,
    rung: RungId,
    seq: SeqNo,
    head: Option<SeqNo>,
    reaped: Seq<(SeqNo, RungId)>,
    s: SeqNo,
)
    requires
        before.wf(),
        before.records(rung, seq, head, reaped, after),
    ensures
        after.given_up().contains(s) ==> before.given_up().contains(s),
        before.given_up().contains(s) && !after.given_up().contains(s) ==> {
            &&& !after.held().contains_key(s)
            &&& exists|r: RungId| reaped.contains((s, r))
        },
        before.given_up().contains(s) && (exists|r: RungId| reaped.contains((s, r)))
            ==> !after.given_up().contains(s),
{
    if !before.holds(rung, seq) {
        let added = store::with_rung(before.held(), rung, seq);
        let floor = store::window_floor(added, before.window(), head);
        if before.given_up().contains(s) && !after.given_up().contains(s) {
            assert(added.contains_key(s) && s < floor);
            let r = if s == seq {
                rung
            } else {
                choose|r: RungId| before.held()[s].contains(r)
            };
            if s != seq {
                assert(before.held().contains_key(s));
            }
            assert(added[s].contains(r));
            assert(reaped.contains((s, r)));
        }
        if exists|r: RungId| reaped.contains((s, r)) {
            let r = choose|r: RungId| reaped.contains((s, r));
            assert(reaped.contains((s, r)));
        }
    }
}

/// What the encoder is told of the run ahead of playout, segment by segment: from the
/// playout head, or from the newest segment where there is no head, every segment up to
/// the frontier is on disk or given up, and the one behind the frontier is neither,
/// unless the frontier is the newest segment. The lead is the length of that run.
pub proof fn law_the_frontier_is_where_playout_would_stop(
    s: &DvrStore,
    playout: PlayoutStatus,
    state: ServerState,
    live: SeqNo,
    from: SeqNo,
    frontier: SeqNo,
)
    requires
        s.tells(playout, state),
        store::is_newest(s.held(), live),
        ({
            let runs = playout.state == PlayoutState::Playing || playout.state
                == PlayoutState::Paused || playout.state == PlayoutState::Stalled;
            if runs && playout.position_seq is Some {
                playout.position_seq == Some(from)
            } else {
                from == live
            }
        }),
        state.frontier_seq == Some(frontier),
    ensures
        from <= frontier <= live,
        forall|t: SeqNo|
            from <= t <= frontier ==> #[trigger] s.held().contains_key(t) || s.given_up().contains(t),
        frontier < live ==> !s.held().contains_key((frontier + 1) as u64)
            && !s.given_up().contains((frontier + 1) as u64),
        (frontier + 1 - from) * s.profile_of().segment_ms <= u32::MAX ==> state.lead_ms == (frontier
            + 1 - from) * s.profile_of().segment_ms,
{
    lemma_newest(s.held(), live);
    let run = s.run_from(from as int);
    law_frontier_is_contiguous(s.held(), s.given_up(), from as int, live as int);
    lemma_run_bound(s.held(), s.given_up(), from as int, live as int);
    assert(frontier == from + run - 1);
    assert forall|t: SeqNo| from <= t <= frontier implies #[trigger] s.held().contains_key(t)
        || s.given_up().contains(t) by {
        assert(store::settled(s.held(), s.given_up(), t as int));
    }
}

/// There is no frontier, and no lead, exactly where playout has nothing to go on with:
/// the store is empty, or its first segment is past the newest one or neither on disk
/// nor given up.
pub proof fn law_without_a_frontier_there_is_no_lead(
    s: &DvrStore,
    playout: PlayoutStatus,
    state: ServerState,
    live: SeqNo,
    head: SeqNo,
)
    requires
        s.tells(playout, state),
        store::is_newest(s.held(), live),
        playout.state == PlayoutState::Playing || playout.state == PlayoutState::Paused
            || playout.state == PlayoutState::Stalled,
        playout.position_seq == Some(head),
    ensures
        state.frontier_seq is None <==> head > live || (!s.held().contains_key(head)
            && !s.given_up().contains(head)),
        state.frontier_seq is None ==> state.lead_ms == 0,
        state.live_seq == Some(live),
        state.playout == playout,
        state.rev == s.revision(),
{
    lemma_newest(s.held(), live);
    assert(store::settled(s.held(), s.given_up(), head as int) <==> s.held().contains_key(head)
        || s.given_up().contains(head));
    assert(0int * s.profile_of().segment_ms == 0);
}

/// What the encoder is told of each segment ahead is the best rung on disk: the first
/// entry is that of the playout head, they follow one another, and none is missing up to
/// the newest segment or 64 segments on.
pub proof fn law_coverage_tells_the_best_rung(
    s: &DvrStore,
    playout: PlayoutStatus,
    state: ServerState,
    live: SeqNo,
    head: SeqNo,
    seq: SeqNo,
)
    requires
        s.tells(playout, state),
        store::is_newest(s.held(), live),
        playout.state == PlayoutState::Playing || playout.state == PlayoutState::Paused
            || playout.state == PlayoutState::Stalled,
        playout.position_seq == Some(head),
        head <= seq <= live,
        seq <= head + 64,
    ensures
        seq - head < state.coverage@.len(),
        state.coverage@[seq - head].seq == seq,
        match state.coverage@[seq - head].best_rung {
            Some(best) => {
                &&& s.held().contains_key(seq) && s.held()[seq].contains(best)
                &&& forall|r: RungId| #[trigger] s.held()[seq].contains(r) ==> r <= best
            },
            None => !s.held().contains_key(seq),
        },
{
    lemma_newest(s.held(), live);
    let entry = state.coverage@[seq - head];
    assert(entry.seq == seq);
}

proof fn lemma_newest(held: Holdings, live: SeqNo)
    requires
        store::is_newest(held, live),
    ensures
        store::newest(held) == Some(live),
{
    let other = choose|s: SeqNo| store::is_newest(held, s);
    store::lemma_ends_unique(held, live, other);
}

proof fn lemma_oldest(held: Holdings, start: SeqNo)
    requires
        store::is_oldest(held, start),
    ensures
        store::oldest(held) == Some(start),
{
    let other = choose|s: SeqNo| store::is_oldest(held, s);
    store::lemma_ends_unique(held, start, other);
}

/// Playout starts on its own as soon as the oldest segment and those behind it hold what
/// the encoder asked for without a break, and not before; it starts at the oldest one.
pub proof fn law_auto_start_is_due_when_the_buffer_is_there(
    s: &DvrStore,
    start: SeqNo,
    live: SeqNo,
    count: int,
    target: u32,
)
    requires
        store::is_oldest(s.held(), start),
        store::is_newest(s.held(), live),
        0 <= count,
        start + count <= live + 1,
        forall|t: SeqNo|
            start <= t < start + count ==> #[trigger] s.held().contains_key(t)
                || s.given_up().contains(t),
        start + count <= live ==> !s.held().contains_key((start + count) as u64)
            && !s.given_up().contains((start + count) as u64),
        s.telemetry() matches Some(encoder) && encoder.auto_start_buffer_ms == Some(target),
        s.auto_started() != Some(target),
    ensures
        s.auto_start_seq() == (if count * s.profile_of().segment_ms >= target {
            Some(start)
        } else {
            None
        }),
        count * s.profile_of().segment_ms <= u32::MAX ==> s.history_ms() == count
            * s.profile_of().segment_ms,
{
    lemma_newest(s.held(), live);
    lemma_oldest(s.held(), start);
    lemma_run_is(s, start, live, count);
    assert(0 <= count * s.profile_of().segment_ms) by (nonlinear_arith)
        requires
            0 <= count,
    ;
}

/// Telemetry that arrives late changes nothing: of any two snapshots, whichever comes
/// first, the one with the higher revision is kept.
pub proof fn law_the_newest_telemetry_is_kept(
    before: &DvrStore,
    middle: &DvrStore,
    after: &DvrStore,
    a: EncoderState,
    b: EncoderState,
)
    requires
        before.hears(a, middle),
        middle.hears(b, after),
    ensures
        after.telemetry() is Some,
        after.telemetry()->0.rev >= a.rev,
        after.telemetry()->0.rev >= b.rev,
        before.telemetry() matches Some(known) ==> after.telemetry()->0.rev >= known.rev,
        after.telemetry() == Some(a) || after.telemetry() == Some(b) || after.telemetry()
            == before.telemetry(),
        a.rev < b.rev && (before.telemetry() matches Some(known) ==> known.rev < b.rev)
            ==> after.telemetry() == Some(b),
        b.rev <= a.rev ==> after.telemetry() == middle.telemetry(),
        after.held() == before.held() && after.given_up() == before.given_up(),
        after.revision() == before.revision(),
{
}

/// A permanent gap is counted once, as long as it lies between the oldest and the newest
/// segment: giving up one more segment there that is missing adds one, and its arrival
/// takes one away.
pub proof fn law_every_gap_counts_once(
    held: Holdings,
    given_up: Set<SeqNo>,
    start: int,
    live: int,
    gap: SeqNo,
    rungs: Set<RungId>,
)
    requires
        0 <= start <= gap <= live <= u64::MAX,
        !held.contains_key(gap),
        !given_up.contains(gap),
    ensures
        store::gaps_between(held, given_up.insert(gap), start, live) == store::gaps_between(
            held,
            given_up,
            start,
            live,
        ) + 1,
        store::gaps_between(held.insert(gap, rungs), given_up.insert(gap), start, live)
            == store::gaps_between(held, given_up, start, live),
    decreases live - start,
{
    if start < gap {
        law_every_gap_counts_once(held, given_up, start + 1, live, gap, rungs);
    } else {
        lemma_gaps_elsewhere(held, given_up, start + 1, live, gap, rungs);
    }
}

proof fn lemma_gaps_elsewhere(
    held: Holdings,
    given_up: Set<SeqNo>,
    from: int,
    live: int,
    gap: SeqNo,
    rungs: Set<RungId>,
)
    requires
        gap < from,
        live <= u64::MAX,
    ensures
        store::gaps_between(held, given_up.insert(gap), from, live) == store::gaps_between(
            held,
            given_up,
            from,
            live,
        ),
        store::gaps_between(held.insert(gap, rungs), given_up.insert(gap), from, live)
            == store::gaps_between(held, given_up, from, live),
    decreases live + 1 - from,
{
    if from <= live {
        lemma_gaps_elsewhere(held, given_up, from + 1, live, gap, rungs);
    }
}

/// Where nothing was given up there is no gap.
pub proof fn law_what_is_late_is_no_gap(held: Holdings, given_up: Set<SeqNo>, start: int, live: int)
    requires
        0 <= start,
        live <= u64::MAX,
        forall|t: SeqNo| start <= t <= live && #[trigger] given_up.contains(t) ==> held.contains_key(t),
    ensures
        store::gaps_between(held, given_up, start, live) == 0,
    decreases live + 1 - start,
{
    if start <= live {
        law_what_is_late_is_no_gap(held, given_up, start + 1, live);
    }
}

/// Giving segments up marks them and nothing else: earlier marks stay, and what is held
/// stays. The revision grows exactly if a mark is new.
pub proof fn law_giving_up_adds_marks(
    before: &DvrStore,
    after: &DvrStore,
    seqs: Seq<SeqNo>,
    s: SeqNo,
)
    requires
        before.gives_up(seqs, after),
    ensures
        after.given_up().contains(s) <==> before.given_up().contains(s) || seqs.contains(s),
        after.held() == before.held(),
        seqs.contains(s) && !before.given_up().contains(s) ==> after.revision()
            > before.revision(),
        (forall|i: int| 0 <= i < seqs.len() ==> before.given_up().contains(#[trigger] seqs[i]))
            ==> after.revision() == before.revision(),
{
    assert(seqs.to_set().contains(s) <==> seqs.contains(s));
    if forall|i: int| 0 <= i < seqs.len() ==> before.given_up().contains(#[trigger] seqs[i]) {
        assert forall|t: SeqNo| seqs.to_set().contains(t) implies before.given_up().contains(t) by {
            let i = choose|i: int| 0 <= i < seqs.len() && seqs[i] == t;
            assert(before.given_up().contains(seqs[i]));
        }
        assert(seqs.to_set().subset_of(before.given_up()));
    }
}

/// The permanent gaps that are shown are counted over the whole window: giving up a segment
/// of it that is missing adds one.
pub proof fn law_a_new_gap_is_shown(
    before: &DvrStore,
    after: &DvrStore,
    start: SeqNo,
    live: SeqNo,
    gap: SeqNo,
)
    requires
        before.gives_up(seq![gap], after),
        store::is_oldest(before.held(), start),
        store::is_newest(before.held(), live),
        start <= gap <= live,
        !before.held().contains_key(gap),
        !before.given_up().contains(gap),
        before.gap_total() < u32::MAX,
    ensures
        after.gap_total() == before.gap_total() + 1,
{
    lemma_newest(before.held(), live);
    lemma_oldest(before.held(), start);
    assert(seq![gap].to_set() =~= Set::<SeqNo>::empty().insert(gap)) by {
        assert(seq![gap][0] == gap);
        assert forall|t: SeqNo| seq![gap].to_set().contains(t) implies t == gap by {}
    }
    assert(after.given_up() =~= before.given_up().insert(gap));
    law_every_gap_counts_once(
        before.held(),
        before.given_up(),
        start as int,
        live as int,
        gap,
        Set::empty(),
    );
}

/// The encoder is told the ends of the window, the water levels that the store was set up
/// with, and how much is buffered without a break from the oldest segment on.
pub proof fn law_the_window_is_told(
    s: &DvrStore,
    playout: PlayoutStatus,
    state: ServerState,
    start: SeqNo,
    live: SeqNo,
    count: int,
)
    requires
        s.tells(playout, state),
        store::is_oldest(s.held(), start),
        store::is_newest(s.held(), live),
        0 <= count,
        start + count <= live + 1,
        forall|t: SeqNo|
            start <= t < start + count ==> #[trigger] s.held().contains_key(t)
                || s.given_up().contains(t),
        start + count <= live ==> !s.held().contains_key((start + count) as u64)
            && !s.given_up().contains((start + count) as u64),
        count * s.profile_of().segment_ms <= u32::MAX,
    ensures
        state.dvr_start_seq == Some(start),
        state.live_seq == Some(live),
        state.water == s.water_of(),
        state.buffered_ms == count * s.profile_of().segment_ms,
        state.rev == s.revision(),
        state.playout == playout,
{
    lemma_newest(s.held(), live);
    lemma_oldest(s.held(), start);
    lemma_run_is(s, start, live, count);
    assert(0 <= count * s.profile_of().segment_ms) by (nonlinear_arith)
        requires
            0 <= count,
    ;
}

/// The run from the oldest segment on has the length that its segments show.
proof fn lemma_run_is(s: &DvrStore, start: SeqNo, live: SeqNo, count: int)
    requires
        store::is_oldest(s.held(), start),
        store::is_newest(s.held(), live),
        0 <= count,
        start + count <= live + 1,
        forall|t: SeqNo|
            start <= t < start + count ==> #[trigger] s.held().contains_key(t)
                || s.given_up().contains(t),
        start + count <= live ==> !s.held().contains_key((start + count) as u64)
            && !s.given_up().contains((start + count) as u64),
    ensures
        s.run_from(start as int) == count,
{
    lemma_newest(s.held(), live);
    law_frontier_is_contiguous(s.held(), s.given_up(), start as int, live as int);
    lemma_run_bound(s.held(), s.given_up(), start as int, live as int);
    let run = s.run_from(start as int);
    if run < count {
        let t = (start + run) as u64;
        assert(s.held().contains_key(t) || s.given_up().contains(t));
        assert(store::settled(s.held(), s.given_up(), start + run));
    }
    if count < run {
        assert(store::settled(s.held(), s.given_up(), start + count));
    }
}

/// What is handed over for deletion is named by its file, one for each pair, in the same
/// order.
pub proof fn law_reaped_files_are_named(
    names: Seq<String>,
    dir: Seq<char>,
    pairs: Seq<(SeqNo, RungId)>,
    i: int,
)
    requires
        store::names_files(names, dir, pairs),
        0 <= i < pairs.len(),
    ensures
        names.len() == pairs.len(),
        names[i]@ == store::dir_prefix(dir) + text::decimal(pairs[i].1 as nat) + "/"@
            + text::decimal(pairs[i].0 as nat) + ".ts"@,
{
}

} // verus!
