//! What holds of every upload plan.

use vstd::prelude::*;

use crate::scheduler::{
    self, P_CONTINUITY, P_LIVE_EDGE, P_UPGRADE, SchedulerInput, UploadAction, UploadReason,
};
use crate::state::{self, StreamProfile};

verus! {

/// What [`scheduler::plan_uploads`] returns.
pub open spec fn plan_of(input: &SchedulerInput) -> Seq<UploadAction> {
    scheduler::by_priority(input.capped_plan())
}

/// No two actions are for the same segment.
pub open spec fn distinct_seqs(plan: Seq<UploadAction>) -> bool {
    forall|i: int, j: int|
        0 <= i < j < plan.len() ==> (#[trigger] plan[i]).seq != (#[trigger] plan[j]).seq
}

/// The actions come in the order of their priorities.
pub open spec fn ordered(plan: Seq<UploadAction>) -> bool {
    forall|i: int, j: int|
        0 <= i < j < plan.len() ==> (#[trigger] plan[i]).priority <= (#[trigger] plan[j]).priority
}

/// What holds of an action of the continuity tier.
pub open spec fn good_continuity(input: &SchedulerInput, a: UploadAction) -> bool {
    &&& a.reason == UploadReason::Continuity
    &&& input.anchor() <= a.seq <= input.encoded()
    &&& !input.server_has(a.seq as int)
    &&& input.inv.holds(a.seq as int, a.rung)
    &&& a.rung == input.low() || a.rung == input.preferred_rung && input.prefers_quality()
    &&& (a.seq - input.anchor()) * input.seg_ms() < input.server.water.high_ms
    &&& a == input.continuity_action(a.seq as int, a.rung)
}

/// What holds of an action of the live-edge tier.
pub open spec fn good_live_edge(input: &SchedulerInput, a: UploadAction) -> bool {
    &&& a.reason == UploadReason::LiveEdge
    &&& input.live_edge_start() <= a.seq <= input.encoded()
    &&& !input.server_has(a.seq as int)
    &&& input.inv.holds(a.seq as int, a.rung)
    &&& a.rung == input.low() || a.rung == input.preferred_rung && !scheduler::is_unknown(
        input.server,
    )
    &&& a == input.live_edge_action(a.seq as int, a.rung)
}

/// What holds of an action of the upgrade tier.
pub open spec fn good_upgrade(input: &SchedulerInput, a: UploadAction) -> bool {
    &&& a.reason == UploadReason::Upgrade
    &&& input.already_fed() < a.seq <= input.upgrade_end()
    &&& input.upgrade_rung(a.seq as int) == Some(a.rung)
    &&& a == input.upgrade_action(a.seq as int, a.rung)
}

pub(crate) proof fn lemma_continuity_tier(
    input: &SchedulerInput,
    plan: Seq<UploadAction>,
    seq: int,
    lead_ms: int,
)
    requires
        input.anchor() <= seq,
        lead_ms == (seq - input.anchor()) * input.seg_ms(),
        distinct_seqs(plan),
        forall|i: int|
            0 <= i < plan.len() ==> good_continuity(input, #[trigger] plan[i]) && plan[i].seq < seq,
    ensures
        ({
            let full = input.continuity_from(plan, seq, lead_ms);
            &&& distinct_seqs(full)
            &&& forall|i: int| 0 <= i < full.len() ==> good_continuity(input, #[trigger] full[i])
        }),
    decreases input.encoded() + 1 - seq,
{
    let g = input.seg_ms();
    let d = seq - input.anchor();
    assert((d + 1) * g == d * g + g) by (nonlinear_arith);
    if lead_ms >= input.server.water.high_ms || seq > input.encoded() {
    } else if input.server_has(seq) {
        lemma_continuity_tier(input, plan, seq + 1, lead_ms + g);
    } else if let Some(rung) = input.fill_rung(
        plan,
        seq,
        input.prefers_quality(),
    ) {
        let a = input.continuity_action(seq, rung);
        assert(good_continuity(input, a));
        lemma_continuity_tier(input, plan.push(a), seq + 1, lead_ms + g);
    }
}

proof fn lemma_live_edge_tier(
    input: &SchedulerInput,
    base: Seq<UploadAction>,
    plan: Seq<UploadAction>,
    seq: int,
)
    requires
        input.live_edge_start() <= seq,
        distinct_seqs(plan),
        base.is_prefix_of(plan),
        forall|i: int|
            base.len() <= i < plan.len() ==> good_live_edge(input, #[trigger] plan[i])
                && plan[i].seq < seq,
        plan.len() > base.len() ==> input.fits(
            scheduler::plan_kbps(input.profile, plan),
        ),
    ensures
        ({
            let full = input.live_edge_from(plan, seq);
            &&& distinct_seqs(full)
            &&& base.is_prefix_of(full)
            &&& forall|i: int|
                base.len() <= i < full.len() ==> good_live_edge(input, #[trigger] full[i])
            &&& full.len() > base.len() ==> input.fits(
                scheduler::plan_kbps(input.profile, full),
            )
        }),
    decreases input.encoded() + 1 - seq,
{
    if seq > input.encoded() {
    } else if input.server_has(seq) || scheduler::plans(plan, seq) {
        lemma_live_edge_tier(input, base, plan, seq + 1);
    } else if let Some(rung) = input.fill_rung(
        plan,
        seq,
        !scheduler::is_unknown(input.server),
    ) {
        if input.fits(
            scheduler::plan_kbps(input.profile, plan) + input.profile.spec_bitrate_of(rung),
        ) {
            let a = input.live_edge_action(seq, rung);
            assert(good_live_edge(input, a));
            assert(plan.push(a).drop_last() =~= plan);
            assert(base =~= plan.push(a).take(base.len() as int));
            lemma_live_edge_tier(input, base, plan.push(a), seq + 1);
        }
    } else {
        lemma_live_edge_tier(input, base, plan, seq + 1);
    }
}

proof fn lemma_upgrade_tier(
    input: &SchedulerInput,
    base: Seq<UploadAction>,
    plan: Seq<UploadAction>,
    seq: int,
)
    requires
        input.already_fed() < seq,
        distinct_seqs(plan),
        base.is_prefix_of(plan),
        forall|i: int|
            base.len() <= i < plan.len() ==> good_upgrade(input, #[trigger] plan[i]) && plan[i].seq
                < seq,
        plan.len() > base.len() ==> input.fits(
            scheduler::plan_kbps(input.profile, plan),
        ),
    ensures
        ({
            let full = input.upgrades_from(plan, seq, input.upgrade_end());
            &&& distinct_seqs(full)
            &&& base.is_prefix_of(full)
            &&& forall|i: int|
                base.len() <= i < full.len() ==> good_upgrade(input, #[trigger] full[i])
            &&& full.len() > base.len() ==> input.fits(
                scheduler::plan_kbps(input.profile, full),
            )
        }),
    decreases input.upgrade_end() + 1 - seq,
{
    if seq > input.upgrade_end() {
    } else if scheduler::plans(plan, seq) {
        lemma_upgrade_tier(input, base, plan, seq + 1);
    } else if let Some(rung) = input.upgrade_rung(seq) {
        if input.fits(
            scheduler::plan_kbps(input.profile, plan) + input.profile.spec_bitrate_of(rung),
        ) {
            let a = input.upgrade_action(seq, rung);
            assert(good_upgrade(input, a));
            assert(plan.push(a).drop_last() =~= plan);
            assert(base =~= plan.push(a).take(base.len() as int));
            lemma_upgrade_tier(input, base, plan.push(a), seq + 1);
        }
    } else {
        lemma_upgrade_tier(input, base, plan, seq + 1);
    }
}

/// What holds of an action of any tier.
pub open spec fn good_action(input: &SchedulerInput, a: UploadAction) -> bool {
    match a.reason {
        UploadReason::Continuity => good_continuity(input, a),
        UploadReason::LiveEdge => good_live_edge(input, a) && !input.survival(),
        UploadReason::Upgrade => good_upgrade(input, a) && input.comfortable()
            && !input.survival(),
    }
}

pub(crate) proof fn lemma_full_plan(input: &SchedulerInput)
    ensures
        distinct_seqs(input.full_plan()),
        forall|i: int|
            0 <= i < input.full_plan().len() ==> good_action(
                input,
                #[trigger] input.full_plan()[i],
            ),
        forall|i: int|
            0 <= i < input.full_plan().len() && (#[trigger] input.full_plan()[i]).reason
                != UploadReason::Continuity ==> input.fits(
                scheduler::plan_kbps(input.profile, input.full_plan()),
            ),
{
    let a = input.continuity_plan();
    assert((input.anchor() - input.anchor()) * input.seg_ms() == 0);
    lemma_continuity_tier(input, Seq::empty(), input.anchor(), 0);
    let b = input.covered_plan();
    if !input.survival() {
        lemma_live_edge_tier(input, a, a, input.live_edge_start());
        assert forall|i: int| 0 <= i < b.len() implies good_action(input, #[trigger] b[i]) by {
            if i < a.len() {
                assert(b[i] == a[i]);
            }
        }
        assert forall|i: int|
            0 <= i < b.len() && (#[trigger] b[i]).reason
                != UploadReason::Continuity implies input.fits(
            scheduler::plan_kbps(input.profile, b),
        ) by {
            if i < a.len() {
                assert(b[i] == a[i]);
            }
        }
        if input.comfortable() {
            lemma_upgrade_tier(input, b, b, input.already_fed() + 1);
            let c = input.full_plan();
            assert forall|i: int| 0 <= i < c.len() implies good_action(input, #[trigger] c[i]) by {
                if i < b.len() {
                    assert(c[i] == b[i]);
                }
            }
            assert forall|i: int|
                0 <= i < c.len() && (#[trigger] c[i]).reason
                    != UploadReason::Continuity implies input.fits(
                scheduler::plan_kbps(input.profile, c),
            ) by {
                if i < b.len() {
                    assert(c[i] == b[i]);
                }
                if c.len() == b.len() {
                    assert(c =~= b);
                }
            }
        }
    }
}

pub(crate) proof fn lemma_plan_kbps_prefix(profile: &StreamProfile, plan: Seq<UploadAction>, n: int)
    requires
        0 <= n <= plan.len(),
    ensures
        scheduler::plan_kbps(profile, plan.take(n)) <= scheduler::plan_kbps(
            profile,
            plan,
        ),
    decreases plan.len(),
{
    if n == plan.len() {
        assert(plan.take(n) =~= plan);
    } else {
        lemma_plan_kbps_prefix(profile, plan.drop_last(), n);
        assert(plan.drop_last().take(n) =~= plan.take(n));
    }
}

pub(crate) proof fn lemma_capped_plan(input: &SchedulerInput)
    ensures
        distinct_seqs(input.capped_plan()),
        input.capped_plan().len() <= input.max_actions,
        forall|i: int|
            0 <= i < input.capped_plan().len() ==> good_action(
                input,
                #[trigger] input.capped_plan()[i],
            ),
        forall|i: int|
            0 <= i < input.capped_plan().len() && (#[trigger] input.capped_plan()[i]).reason
                != UploadReason::Continuity ==> input.fits(
                scheduler::plan_kbps(input.profile, input.capped_plan()),
            ),
{
    lemma_full_plan(input);
    let full = input.full_plan();
    if full.len() > input.max_actions {
        let capped = input.capped_plan();
        lemma_plan_kbps_prefix(input.profile, full, input.max_actions as int);
        assert forall|i: int| 0 <= i < capped.len() implies good_action(
            input,
            #[trigger] capped[i],
        ) by {
            assert(capped[i] == full[i]);
        }
        assert forall|i: int|
            0 <= i < capped.len() && (#[trigger] capped[i]).reason
                != UploadReason::Continuity implies input.fits(
            scheduler::plan_kbps(input.profile, capped),
        ) by {
            assert(capped[i] == full[i]);
        }
    }
}

/// An action is put behind the last one that is no less urgent.
pub(crate) proof fn lemma_insert_place(plan: Seq<UploadAction>, a: UploadAction) -> (k: int)
    ensures
        0 <= k <= plan.len(),
        scheduler::insert_by_priority(plan, a) == plan.insert(k, a),
        forall|i: int| k <= i < plan.len() ==> (#[trigger] plan[i]).priority > a.priority,
        k > 0 ==> plan[k - 1].priority <= a.priority,
    decreases plan.len(),
{
    if plan.len() == 0 || plan.last().priority <= a.priority {
        assert(plan.push(a) =~= plan.insert(plan.len() as int, a));
        plan.len() as int
    } else {
        let front = plan.drop_last();
        let k = lemma_insert_place(front, a);
        assert(front.insert(k, a).push(plan.last()) =~= plan.insert(k, a));
        assert forall|i: int| k <= i < plan.len() implies (#[trigger] plan[i]).priority
            > a.priority by {
            if i < front.len() {
                assert(front[i] == plan[i]);
            }
        }
        k
    }
}

proof fn lemma_insert_kbps(profile: &StreamProfile, plan: Seq<UploadAction>, a: UploadAction, k: int)
    requires
        0 <= k <= plan.len(),
    ensures
        scheduler::plan_kbps(profile, plan.insert(k, a)) == scheduler::plan_kbps(profile, plan)
            + profile.spec_bitrate_of(a.rung),
    decreases plan.len(),
{
    let r = plan.insert(k, a);
    if k == plan.len() {
        assert(r.drop_last() =~= plan);
    } else {
        lemma_insert_kbps(profile, plan.drop_last(), a, k);
        assert(r.drop_last() =~= plan.drop_last().insert(k, a));
        assert(r.last() == plan.last());
    }
}

proof fn lemma_insert(profile: &StreamProfile, plan: Seq<UploadAction>, a: UploadAction)
    requires
        ordered(plan),
    ensures
        ({
            let r = scheduler::insert_by_priority(plan, a);
            &&& r.len() == plan.len() + 1
            &&& ordered(r)
            &&& r.contains(a)
            &&& forall|i: int| 0 <= i < r.len() ==> #[trigger] r[i] == a || plan.contains(r[i])
            &&& distinct_seqs(plan) && !scheduler::plans(plan, a.seq as int)
                ==> distinct_seqs(r)
            &&& scheduler::plan_kbps(profile, r) == scheduler::plan_kbps(
                profile,
                plan,
            ) + profile.spec_bitrate_of(a.rung)
            &&& plan.len() > 0 && plan[0].priority <= a.priority ==> r[0] == plan[0]
            &&& plan.len() == 0 ==> r[0] == a
        }),
{
    let k = lemma_insert_place(plan, a);
    let r = plan.insert(k, a);
    lemma_insert_kbps(profile, plan, a, k);
    assert(r[k] == a);
    assert forall|i: int| 0 <= i < r.len() implies #[trigger] r[i] == a || plan.contains(r[i]) by {
        if i < k {
            assert(plan[i] == r[i]);
        } else if i > k {
            assert(plan[i - 1] == r[i]);
        }
    }
    assert forall|i: int, j: int| 0 <= i < j < r.len() implies (#[trigger] r[i]).priority <= (
    #[trigger] r[j]).priority by {
        if i < k && j == k {
            assert(plan[i].priority <= plan[k - 1].priority);
        } else if i == k {
            assert(plan[j - 1] == r[j]);
        } else if i < k && j < k {
            assert(plan[i].priority <= plan[j].priority);
        } else if i < k {
            assert(plan[i].priority <= plan[j - 1].priority);
        } else {
            assert(plan[i - 1].priority <= plan[j - 1].priority);
        }
    }
    if distinct_seqs(plan) && !scheduler::plans(plan, a.seq as int) {
        assert forall|i: int, j: int| 0 <= i < j < r.len() implies (#[trigger] r[i]).seq != (
        #[trigger] r[j]).seq by {
            let x = if i < k {
                i
            } else {
                i - 1
            };
            let y = if j < k {
                j
            } else {
                j - 1
            };
            if i == k {
                assert(plan[y].seq != a.seq);
            } else if j == k {
                assert(plan[x].seq != a.seq);
            } else {
                assert(plan[x].seq != plan[y].seq);
            }
        }
    }
}

pub(crate) proof fn lemma_by_priority(profile: &StreamProfile, plan: Seq<UploadAction>)
    ensures
        ({
            let r = scheduler::by_priority(plan);
            &&& r.len() == plan.len()
            &&& ordered(r)
            &&& forall|i: int| 0 <= i < r.len() ==> plan.contains(#[trigger] r[i])
            &&& distinct_seqs(plan) ==> distinct_seqs(r)
            &&& scheduler::plan_kbps(profile, r) == scheduler::plan_kbps(
                profile,
                plan,
            )
            &&& plan.len() > 0 && plan[0].priority == 0 ==> r[0] == plan[0]
        }),
    decreases plan.len(),
{
    if plan.len() > 0 {
        let front = plan.drop_last();
        let m = scheduler::by_priority(front);
        lemma_by_priority(profile, front);
        lemma_insert(profile, m, plan.last());
        let r = scheduler::by_priority(plan);
        assert forall|i: int| 0 <= i < r.len() implies plan.contains(#[trigger] r[i]) by {
            if r[i] == plan.last() {
                assert(plan[plan.len() - 1] == r[i]);
            } else {
                let k = choose|k: int| 0 <= k < m.len() && m[k] == r[i];
                let t = choose|t: int| 0 <= t < front.len() && front[t] == m[k];
                assert(plan[t] == r[i]);
            }
        }
        if distinct_seqs(plan) {
            assert(!scheduler::plans(m, plan.last().seq as int)) by {
                if scheduler::plans(m, plan.last().seq as int) {
                    let k = choose|k: int| 0 <= k < m.len() && (#[trigger] m[k]).seq
                        == plan.last().seq;
                    let t = choose|t: int| 0 <= t < front.len() && front[t] == m[k];
                    assert(plan[t].seq == plan[plan.len() - 1].seq);
                }
            }
        }
    }
}

pub(crate) proof fn lemma_plan(input: &SchedulerInput)
    ensures
        forall|i: int| 0 <= i < plan_of(input).len() ==> good_action(input, #[trigger] plan_of(input)[i]),
{
    let capped = input.capped_plan();
    let plan = plan_of(input);
    lemma_capped_plan(input);
    lemma_by_priority(input.profile, capped);
    assert forall|i: int| 0 <= i < plan.len() implies good_action(input, #[trigger] plan[i]) by {
        let k = choose|k: int| 0 <= k < capped.len() && capped[k] == plan[i];
        assert(good_action(input, capped[k]));
    }
}

/// A plan comes in the order of its priorities and holds no more actions than
/// allowed.
pub proof fn law_plan_is_ordered_and_capped(input: &SchedulerInput)
    ensures
        ordered(plan_of(input)),
        plan_of(input).len() <= input.max_actions,
{
    lemma_capped_plan(input);
    lemma_by_priority(input.profile, input.capped_plan());
}

/// A plan never sends a segment twice.
pub proof fn law_plan_has_one_action_per_segment(input: &SchedulerInput)
    ensures
        distinct_seqs(plan_of(input)),
{
    lemma_capped_plan(input);
    lemma_by_priority(input.profile, input.capped_plan());
}

/// A plan only sends what is on local disk, and nothing behind the playout
/// head: no bytes go to segments that will never be played.
pub proof fn law_plan_sends_what_is_on_disk_from_the_anchor_on(input: &SchedulerInput, i: int)
    requires
        0 <= i < plan_of(input).len(),
    ensures
        input.anchor() <= plan_of(input)[i].seq <= input.encoded(),
        input.inv.holds(plan_of(input)[i].seq as int, plan_of(input)[i].rung),
{
    lemma_plan(input);
    assert(good_action(input, plan_of(input)[i]));
}

/// Upgrades are strictly ahead of the playout head and of whatever the decoder
/// has been fed.
pub proof fn law_upgrades_are_ahead_of_playout(input: &SchedulerInput, i: int)
    requires
        0 <= i < plan_of(input).len(),
        plan_of(input)[i].reason == UploadReason::Upgrade,
    ensures
        plan_of(input)[i].seq > input.anchor(),
        input.server.playout.fed_seq matches Some(fed) ==> plan_of(input)[i].seq > fed,
{
    lemma_plan(input);
    assert(good_action(input, plan_of(input)[i]));
}

/// There is no upgrade before `high_ms` are secured ahead of the anchor.
pub proof fn law_upgrades_wait_for_the_margin(input: &SchedulerInput, i: int)
    requires
        0 <= i < plan_of(input).len(),
        plan_of(input)[i].reason == UploadReason::Upgrade,
    ensures
        input.lead_ms() >= input.server.water.high_ms,
        input.lead_ms() >= input.server.water.low_ms,
{
    lemma_plan(input);
    assert(good_action(input, plan_of(input)[i]));
}

/// An upgrade sends a better rung than the server has, one of the ladder: the next
/// step up.
pub proof fn law_upgrades_raise_quality(input: &SchedulerInput, i: int)
    requires
        0 <= i < plan_of(input).len(),
        plan_of(input)[i].reason == UploadReason::Upgrade,
    ensures
        input.inv.best_at_server(plan_of(input)[i].seq as int) matches Some(best)
            ==> plan_of(input)[i].rung > best,
        input.upgrade_rung(plan_of(input)[i].seq as int) == Some(plan_of(input)[i].rung),
        state::has_rung_id(input.profile.rungs@, plan_of(input)[i].rung),
{
    lemma_plan(input);
    let a = plan_of(input)[i];
    assert(good_action(input, a));
    let current = match input.inv.best_at_server(a.seq as int) {
        Some(best) => best,
        None => input.low(),
    };
    let rungs = input.profile.rungs@;
    assert(input.profile.spec_rung_above(current) == Some(a.rung));
    let k = choose|k: int| state::is_cheapest_above(rungs, current as int, k);
    assert(state::is_cheapest_above(rungs, current as int, k));
    assert(rungs[k].id == a.rung);
}

/// Below `low_ms` every byte goes to continuity.
pub proof fn law_survival_is_continuity_only(input: &SchedulerInput, i: int)
    requires
        0 <= i < plan_of(input).len(),
        input.lead_ms() < input.server.water.low_ms,
    ensures
        plan_of(input)[i].reason == UploadReason::Continuity,
{
    lemma_plan(input);
    assert(good_action(input, plan_of(input)[i]));
}

/// While a playout head is defended, continuity uses the survival rung, whatever
/// the operator prefers.
pub proof fn law_continuity_at_a_head_uses_the_survival_rung(input: &SchedulerInput, i: int)
    requires
        0 <= i < plan_of(input).len(),
        plan_of(input)[i].reason == UploadReason::Continuity,
        scheduler::active_head(input.server),
    ensures
        plan_of(input)[i].rung == input.low(),
{
    lemma_plan(input);
    assert(good_action(input, plan_of(input)[i]));
}

/// While nothing is known of the server the encoder plays safe: what is missing
/// is sent at the survival rung only, whatever the operator prefers and whatever
/// the link can carry.
pub proof fn law_without_news_the_survival_rung_fills(input: &SchedulerInput, i: int)
    requires
        scheduler::is_unknown(input.server),
        0 <= i < plan_of(input).len(),
        !(plan_of(input)[i].reason is Upgrade),
    ensures
        plan_of(input)[i].rung == input.low(),
{
    lemma_plan(input);
    assert(good_action(input, plan_of(input)[i]));
}

/// Continuity and live-edge uploads only fill what the server lacks, at the
/// survival rung or the preferred one.
pub proof fn law_fills_are_for_missing_segments(input: &SchedulerInput, i: int)
    requires
        0 <= i < plan_of(input).len(),
        plan_of(input)[i].reason != UploadReason::Upgrade,
    ensures
        !input.server_has(plan_of(input)[i].seq as int),
        plan_of(input)[i].rung == input.low() || plan_of(input)[i].rung == input.preferred_rung,
{
    lemma_plan(input);
    assert(good_action(input, plan_of(input)[i]));
}

/// Only continuity may burst past the budget: a plan with any other upload fits
/// it, its continuity uploads included.
pub proof fn law_only_continuity_exceeds_the_budget(input: &SchedulerInput, i: int)
    requires
        0 <= i < plan_of(input).len(),
        plan_of(input)[i].reason != UploadReason::Continuity,
    ensures
        input.fits(scheduler::plan_kbps(input.profile, plan_of(input))),
{
    let capped = input.capped_plan();
    lemma_capped_plan(input);
    lemma_by_priority(input.profile, capped);
    let k = choose|k: int| 0 <= k < capped.len() && capped[k] == plan_of(input)[i];
    assert(capped[k].reason != UploadReason::Continuity);
}

/// Rank of a tier.
pub open spec fn tier(reason: UploadReason) -> int {
    match reason {
        UploadReason::Continuity => 0,
        UploadReason::LiveEdge => 1,
        UploadReason::Upgrade => 2,
    }
}

/// Segments between the priorities of two tiers.
pub const TIER_SPAN: u32 = 1_000_000;

/// An upload lies closer to what its tier defends than the priorities of two
/// tiers lie apart.
pub open spec fn is_near(input: &SchedulerInput, a: UploadAction) -> bool {
    match a.reason {
        UploadReason::Continuity => a.seq - input.anchor() < TIER_SPAN,
        UploadReason::LiveEdge => input.encoded() - a.seq < TIER_SPAN,
        UploadReason::Upgrade => true,
    }
}

/// Continuity outranks the live edge, which outranks upgrades: an upload that is
/// near what its tier defends never stands behind one of a lower tier.
pub proof fn law_tiers_are_absolute(input: &SchedulerInput, i: int, j: int)
    requires
        0 <= i < j < plan_of(input).len(),
        is_near(input, plan_of(input)[j]),
    ensures
        tier(plan_of(input)[i].reason) <= tier(plan_of(input)[j].reason),
{
    law_plan_is_ordered_and_capped(input);
    lemma_plan(input);
    assert(good_action(input, plan_of(input)[i]));
    assert(good_action(input, plan_of(input)[j]));
    assert(plan_of(input)[i].priority <= plan_of(input)[j].priority);
    assert(P_CONTINUITY == 0);
}

/// Every upload is near what its tier defends where the water levels are less
/// than a million segments.
pub proof fn law_water_levels_keep_tiers_near(input: &SchedulerInput, i: int)
    requires
        0 <= i < plan_of(input).len(),
        input.segs_in(input.server.water.high_ms) < TIER_SPAN,
        input.segs_in(input.server.water.target_ms) <= TIER_SPAN,
    ensures
        is_near(input, plan_of(input)[i]),
{
    lemma_plan(input);
    let a = plan_of(input)[i];
    assert(good_action(input, a));
    if a.reason == UploadReason::Continuity {
        let d = a.seq - input.anchor();
        let g = input.seg_ms();
        let high = input.server.water.high_ms as int;
        vstd::arithmetic::div_mod::lemma_fundamental_div_mod(high, g);
        vstd::arithmetic::div_mod::lemma_mod_bound(high, g);
        assert(d <= high / g) by (nonlinear_arith)
            requires
                d * g < high,
                g > 0,
                high == g * (high / g) + high % g,
                0 <= high % g < g,
        ;
        if high < g {
            assert(high / g == 0) by (nonlinear_arith)
                requires
                    0 <= high < g,
                    high == g * (high / g) + high % g,
                    0 <= high % g < g,
            ;
        }
    }
}

/// The upgrades of a plan go forward.
spec fn upgrades_ascend(plan: Seq<UploadAction>) -> bool {
    forall|i: int, j: int|
        #![trigger plan[i], plan[j]]
        0 <= i < j < plan.len() && plan[i].reason == UploadReason::Upgrade && plan[j].reason
            == UploadReason::Upgrade ==> plan[i].seq < plan[j].seq
}

proof fn lemma_upgrades_ascend(input: &SchedulerInput, plan: Seq<UploadAction>, seq: int)
    requires
        0 <= seq,
        upgrades_ascend(plan),
        forall|i: int|
            0 <= i < plan.len() && (#[trigger] plan[i]).reason == UploadReason::Upgrade
                ==> plan[i].seq < seq,
    ensures
        upgrades_ascend(input.upgrades_from(plan, seq, input.upgrade_end())),
    decreases input.upgrade_end() + 1 - seq,
{
    if seq > input.upgrade_end() {
    } else if scheduler::plans(plan, seq) {
        lemma_upgrades_ascend(input, plan, seq + 1);
    } else if let Some(rung) = input.upgrade_rung(seq) {
        if input.fits(
            scheduler::plan_kbps(input.profile, plan) + input.profile.spec_bitrate_of(rung),
        ) {
            lemma_upgrades_ascend(input, plan.push(input.upgrade_action(seq, rung)), seq + 1);
        }
    } else {
        lemma_upgrades_ascend(input, plan, seq + 1);
    }
}

proof fn lemma_sorted_upgrades_ascend(profile: &StreamProfile, plan: Seq<UploadAction>)
    requires
        upgrades_ascend(plan),
        forall|i: int, j: int|
            #![trigger plan[i], plan[j]]
            0 <= i < j < plan.len() && plan[i].reason == UploadReason::Upgrade && plan[j].reason
                == UploadReason::Upgrade ==> plan[i].priority <= plan[j].priority,
    ensures
        upgrades_ascend(scheduler::by_priority(plan)),
    decreases plan.len(),
{
    if plan.len() > 0 {
        let front = plan.drop_last();
        let a = plan.last();
        let m = scheduler::by_priority(front);
        lemma_sorted_upgrades_ascend(profile, front);
        lemma_by_priority(profile, front);
        let k = lemma_insert_place(m, a);
        let r = m.insert(k, a);
        assert forall|x: int, y: int|
            #![trigger r[x], r[y]]
            0 <= x < y < r.len() && r[x].reason == UploadReason::Upgrade && r[y].reason
                == UploadReason::Upgrade implies r[x].seq < r[y].seq by {
            let other = if x == k {
                y - 1
            } else {
                x
            };
            if x == k || y == k {
                assert(m[other] == r[if x == k {
                    y
                } else {
                    x
                }]);
                let t = choose|t: int| 0 <= t < front.len() && front[t] == m[other];
                assert(plan[t] == m[other] && plan[plan.len() - 1] == a);
            } else {
                let p = if x < k {
                    x
                } else {
                    x - 1
                };
                let q = if y < k {
                    y
                } else {
                    y - 1
                };
                assert(r[x] == m[p] && r[y] == m[q]);
            }
        }
    }
}

/// Within a tier the most urgent segment comes first: the nearest to the playout
/// head, and at the live edge the newest.
pub proof fn law_nearest_first(input: &SchedulerInput, i: int, j: int)
    requires
        0 <= i < j < plan_of(input).len(),
        plan_of(input)[i].reason == plan_of(input)[j].reason,
        plan_of(input)[i].reason == UploadReason::LiveEdge ==> plan_of(input)[i].priority < u32::MAX,
    ensures
        plan_of(input)[i].reason == UploadReason::LiveEdge ==> plan_of(input)[i].seq > plan_of(
            input,
        )[j].seq,
        plan_of(input)[i].reason != UploadReason::LiveEdge ==> plan_of(input)[i].seq < plan_of(
            input,
        )[j].seq,
{
    law_plan_is_ordered_and_capped(input);
    law_plan_has_one_action_per_segment(input);
    lemma_plan(input);
    let a = plan_of(input)[i];
    let b = plan_of(input)[j];
    assert(good_action(input, a));
    assert(good_action(input, b));
    assert(a.priority <= b.priority);
    assert(a.seq != b.seq);
    if a.reason == UploadReason::Continuity {
        let d = a.seq - input.anchor();
        assert(d <= d * input.seg_ms()) by (nonlinear_arith)
            requires
                0 <= d,
                1 <= input.seg_ms(),
        ;
    }
    if a.reason == UploadReason::Upgrade {
        let covered = input.covered_plan();
        let full = input.full_plan();
        let capped = input.capped_plan();
        lemma_full_plan(input);
        lemma_covered_has_no_upgrade(input);
        lemma_upgrades_ascend(input, covered, input.already_fed() + 1);
        assert forall|x: int, y: int|
            #![trigger capped[x], capped[y]]
            0 <= x < y < capped.len() && capped[x].reason == UploadReason::Upgrade
                && capped[y].reason == UploadReason::Upgrade implies capped[x].seq < capped[y].seq
            && capped[x].priority <= capped[y].priority by {
            assert(capped[x] == full[x] && capped[y] == full[y]);
            assert(good_action(input, full[x]));
            assert(good_action(input, full[y]));
        }
        lemma_sorted_upgrades_ascend(input.profile, capped);
    }
}

pub(crate) proof fn lemma_covered_has_no_upgrade(input: &SchedulerInput)
    ensures
        forall|i: int|
            0 <= i < input.covered_plan().len() ==> (#[trigger] input.covered_plan()[i]).reason
                != UploadReason::Upgrade,
{
    let a = input.continuity_plan();
    assert((input.anchor() - input.anchor()) * input.seg_ms() == 0);
    lemma_continuity_tier(input, Seq::empty(), input.anchor(), 0);
    if !input.survival() {
        lemma_live_edge_tier(input, a, a, input.live_edge_start());
        let b = input.covered_plan();
        assert forall|i: int| 0 <= i < b.len() implies (#[trigger] b[i]).reason
            != UploadReason::Upgrade by {
            if i < a.len() {
                assert(b[i] == a[i]);
            }
        }
    }
}

proof fn lemma_prefix_first(a: Seq<UploadAction>, b: Seq<UploadAction>)
    requires
        a.is_prefix_of(b),
        a.len() > 0,
    ensures
        b.len() > 0,
        b[0] == a[0],
{
    assert(a[0] == b.subrange(0, a.len() as int)[0]);
}

/// A hole at the anchor is what a plan sends first, if it can be filled at all.
pub proof fn law_a_hole_at_the_head_is_sent_first(input: &SchedulerInput)
    requires
        input.max_actions > 0,
        input.server.water.high_ms > 0,
        input.anchor() <= input.encoded(),
        !input.server_has(input.anchor()),
        input.inv.holds(input.anchor(), input.low()),
    ensures
        plan_of(input).len() > 0,
        plan_of(input)[0].seq == input.anchor(),
        plan_of(input)[0].reason == UploadReason::Continuity,
{
    let empty = Seq::<UploadAction>::empty();
    let rung = input.fill_rung(
        empty,
        input.anchor(),
        input.prefers_quality(),
    )->0;
    let a = input.continuity_action(input.anchor(), rung);
    let first = empty.push(a);
    input.lemma_continuity_extends(first, input.anchor() + 1, input.seg_ms());
    assert(input.continuity_plan() == input.continuity_from(
        first,
        input.anchor() + 1,
        input.seg_ms(),
    ));
    input.lemma_tiers_extend();
    lemma_prefix_first(first, input.continuity_plan());
    lemma_prefix_first(input.continuity_plan(), input.covered_plan());
    lemma_prefix_first(input.covered_plan(), input.full_plan());
    assert(input.capped_plan()[0] == a);
    lemma_by_priority(input.profile, input.capped_plan());
}

/// While a head is defended, a hole that is on no disk holds up the whole
/// continuity tier: giving the segment up is the only way on.
pub proof fn law_a_permanent_gap_blocks_continuity(input: &SchedulerInput, seq: int, i: int)
    requires
        scheduler::active_head(input.server),
        scheduler::first_hole(input.server, input.inv, seq),
        !input.inv.holds(seq, input.low()),
        0 <= i < plan_of(input).len(),
    ensures
        plan_of(input)[i].reason != UploadReason::Continuity,
{
    lemma_blocked(input, seq, input.anchor(), 0);
    lemma_full_plan(input);
    lemma_plan(input);
    let capped = input.capped_plan();
    lemma_by_priority(input.profile, capped);
    let k = choose|k: int| 0 <= k < capped.len() && capped[k] == plan_of(input)[i];
    assert(capped[k] == input.full_plan()[k]);
    let a = input.continuity_plan();
    assert(a.len() == 0);
    if !input.survival() {
        lemma_live_edge_tier(input, a, a, input.live_edge_start());
        if input.comfortable() {
            let b = input.covered_plan();
            lemma_upgrade_tier(input, b, b, input.already_fed() + 1);
            if k < b.len() {
                assert(input.full_plan()[k] == b[k]);
            }
        }
    }
}

proof fn lemma_blocked(input: &SchedulerInput, hole: int, seq: int, lead_ms: int)
    requires
        scheduler::active_head(input.server),
        scheduler::first_hole(input.server, input.inv, hole),
        !input.inv.holds(hole, input.low()),
        input.anchor() <= seq <= hole,
    ensures
        input.continuity_from(Seq::empty(), seq, lead_ms).len() == 0,
    decreases hole - seq,
{
    if seq < hole {
        assert(input.inv.best_at_server(seq) is Some);
        lemma_blocked(input, hole, seq + 1, lead_ms + input.seg_ms());
    }
}

} // verus!
