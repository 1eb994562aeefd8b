//! The closed-loop upload scheduler: which segments to upload in this tick, and
//! at which rung.
//!
//!  1. Continuity first: around the playout head every segment must exist at
//!     some rung, so that playout never meets a gap. That margin is rebuilt up
//!     to `water.high_ms`, past the bandwidth budget if need be.
//!  2. The live edge next: the newest segments are covered, so that the DVR
//!     window stays contiguous and going live is instant.
//!  3. Quality last, and only ahead of playout: once the margin is comfortable
//!     and bandwidth is left, segments that have not been played or fed to the
//!     decoder yet are raised by one rung, nearest first.

use std::collections::BTreeMap;
use vstd::prelude::*;

use crate::state::{PlayoutState, RungId, SeqNo, ServerState, StreamProfile};

verus! {

broadcast use vstd::std_specs::btree::group_btree_axioms;

/// Why a segment is uploaded.
#[derive(Clone, Copy, Debug, PartialEq, Eq, Structural)]
pub enum UploadReason {
    /// Fill a hole at or ahead of the playout head.
    Continuity,
    /// Cover the newest segments.
    LiveEdge,
    /// Raise quality ahead of the playout head.
    Upgrade,
}

/// One planned upload.
#[derive(Clone, Copy, Debug, PartialEq, Eq, Structural)]
pub struct UploadAction {
    pub seq: SeqNo,
    pub rung: RungId,
    pub reason: UploadReason,
    /// Lower is more urgent.
    pub priority: u32,
}

/// What the encoder holds on disk, and what it believes the server to hold.
#[derive(Clone, Debug)]
pub struct LocalInventory {
    /// Newest segment produced locally.
    pub encoded_seq: SeqNo,
    /// Oldest segment still on local disk.
    pub oldest_seq: SeqNo,
    /// Rungs on local disk per segment.
    pub available: BTreeMap<SeqNo, Vec<RungId>>,
    /// Best rung of the server per segment; `None` and an absent key alike
    /// mean that it has none.
    pub server_best: BTreeMap<SeqNo, Option<RungId>>,
}

/// The list holds the rung.
fn contains_rung(rungs: &Vec<RungId>, rung: RungId) -> (b: bool)
    ensures
        b == rungs@.contains(rung),
{
    let mut i: usize = 0;
    while i < rungs.len()
        invariant
            i <= rungs@.len(),
            forall|j: int| 0 <= j < i ==> rungs@[j] != rung,
        decreases rungs@.len() - i,
    {
        if rungs[i] == rung {
            return true;
        }
        i = i + 1;
    }
    false
}

impl LocalInventory {
    /// The segment is on local disk at that rung.
    pub open spec fn holds(&self, seq: int, rung: RungId) -> bool {
        self.available@.contains_key(seq as u64) && self.available@[seq as u64]@.contains(rung)
    }

    /// The best rung of the server for the segment.
    pub open spec fn best_at_server(&self, seq: int) -> Option<RungId> {
        if self.server_best@.contains_key(seq as u64) {
            self.server_best@[seq as u64]
        } else {
            None
        }
    }

    /// The segment is on local disk at that rung.
    pub fn has_rung(&self, seq: SeqNo, rung: RungId) -> (b: bool)
        ensures
            b == self.holds(seq as int, rung),
    {
        match self.available.get(&seq) {
            Some(rungs) => contains_rung(rungs, rung),
            None => false,
        }
    }

    /// The best rung of the server for the segment.
    pub fn server_best(&self, seq: SeqNo) -> (best: Option<RungId>)
        ensures
            best == self.best_at_server(seq as int),
    {
        match self.server_best.get(&seq) {
            Some(best) => *best,
            None => None,
        }
    }

    /// The server has the segment at some rung.
    pub fn server_has_any(&self, seq: SeqNo) -> (b: bool)
        ensures
            b == self.best_at_server(seq as int) is Some,
    {
        self.server_best(seq).is_some()
    }
}

impl Default for LocalInventory {
    fn default() -> (inv: Self)
        ensures
            inv.encoded_seq == 0,
            inv.oldest_seq == 0,
            inv.available@ == Map::<SeqNo, Vec<RungId>>::empty(),
            inv.server_best@ == Map::<SeqNo, Option<RungId>>::empty(),
    {
        LocalInventory {
            encoded_seq: 0,
            oldest_seq: 0,
            available: BTreeMap::new(),
            server_best: BTreeMap::new(),
        }
    }
}

/// Inputs of one planning tick.
pub struct SchedulerInput<'a> {
    pub profile: &'a StreamProfile,
    pub server: &'a ServerState,
    pub inv: &'a LocalInventory,
    /// Recent measured upload throughput.
    pub throughput_kbps: u32,
    /// Safety factor on the throughput, in thousandths.
    pub headroom_permille: u32,
    /// Most actions in one plan.
    pub max_actions: usize,
    /// The operator's default quality, a rung of `profile`. It is tried first
    /// where something is known of the server, no playout head has to be
    /// defended and it fits the budget.
    pub preferred_rung: RungId,
}

pub const P_CONTINUITY: u32 = 0;

pub const P_LIVE_EDGE: u32 = 1_000_000;

pub const P_UPGRADE: u32 = 2_000_000;

/// A playout head is being defended.
pub open spec fn active_head(server: &ServerState) -> bool {
    server.playout.state == PlayoutState::Playing || server.playout.state == PlayoutState::Paused
        || server.playout.state == PlayoutState::Stalled
}

/// Nothing is known of the server: it has not been heard from, or not for too
/// long.
pub open spec fn is_unknown(server: &ServerState) -> bool {
    server.rev == 0 && server.live_seq is None
}

/// The segment that anchors all urgency: the playout head while one is
/// defended, else the live edge, else the oldest segment on disk.
pub open spec fn anchor_of(server: &ServerState, inv: &LocalInventory) -> SeqNo {
    if active_head(server) && server.playout.position_seq is Some {
        server.playout.position_seq->0
    } else if server.live_seq is Some {
        server.live_seq->0
    } else {
        inv.oldest_seq
    }
}

/// A priority within its tier, `distance` segments from the tier's most urgent
/// one.
pub open spec fn tier_priority(base: u32, distance: int) -> u32 {
    if base + distance > u32::MAX {
        u32::MAX
    } else {
        (base + distance) as u32
    }
}

/// Some planned action is for that segment.
pub open spec fn plans(plan: Seq<UploadAction>, seq: int) -> bool {
    exists|i: int| 0 <= i < plan.len() && (#[trigger] plan[i]).seq == seq
}

/// Bitrate that a plan takes, one segment interval long.
pub open spec fn plan_kbps(profile: &StreamProfile, plan: Seq<UploadAction>) -> int
    decreases plan.len(),
{
    if plan.len() == 0 {
        0
    } else {
        plan_kbps(profile, plan.drop_last()) + profile.spec_bitrate_of(plan.last().rung)
    }
}

impl<'a> SchedulerInput<'a> {
    /// Length of a segment, at least 1 ms.
    pub open spec fn seg_ms(&self) -> int {
        if self.profile.segment_ms == 0 {
            1
        } else {
            self.profile.segment_ms as int
        }
    }

    pub open spec fn low(&self) -> RungId {
        self.profile.spec_low_rung()
    }

    pub open spec fn anchor(&self) -> int {
        anchor_of(self.server, self.inv) as int
    }

    pub open spec fn encoded(&self) -> int {
        self.inv.encoded_seq as int
    }

    pub open spec fn server_has(&self, seq: int) -> bool {
        self.inv.best_at_server(seq) is Some
    }

    /// A bitrate is within the throughput, less the headroom.
    pub open spec fn fits(&self, kbps: int) -> bool {
        kbps * 1000 <= self.throughput_kbps * self.headroom_permille
    }

    /// The rung at which a missing segment is sent after `plan`: the preferred
    /// one if that is wanted here, on disk and within the budget, else the
    /// survival rung if that is on disk.
    pub open spec fn fill_rung(
        &self,
        plan: Seq<UploadAction>,
        seq: int,
        want_preferred: bool,
    ) -> Option<RungId> {
        if want_preferred && self.preferred_rung != self.low() && self.inv.holds(
            seq,
            self.preferred_rung,
        ) && self.fits(
            plan_kbps(self.profile, plan) + self.profile.spec_bitrate_of(self.preferred_rung),
        ) {
            Some(self.preferred_rung)
        } else if self.inv.holds(seq, self.low()) {
            Some(self.low())
        } else {
            None
        }
    }

    pub open spec fn continuity_action(&self, seq: int, rung: RungId) -> UploadAction {
        UploadAction {
            seq: seq as u64,
            rung,
            reason: UploadReason::Continuity,
            priority: tier_priority(P_CONTINUITY, seq - self.anchor()),
        }
    }

    pub open spec fn live_edge_action(&self, seq: int, rung: RungId) -> UploadAction {
        UploadAction {
            seq: seq as u64,
            rung,
            reason: UploadReason::LiveEdge,
            priority: tier_priority(P_LIVE_EDGE, self.encoded() - seq),
        }
    }

    pub open spec fn upgrade_action(&self, seq: int, rung: RungId) -> UploadAction {
        UploadAction {
            seq: seq as u64,
            rung,
            reason: UploadReason::Upgrade,
            priority: tier_priority(P_UPGRADE, seq - self.anchor()),
        }
    }

    /// Continuity may be sent at the preferred rung: something is known of the
    /// server, and it has no playout head to be defended.
    pub open spec fn prefers_quality(&self) -> bool {
        !active_head(self.server) && !is_unknown(self.server)
    }

    /// Continuity from `seq` on, with `lead_ms` secured before it: every hole
    /// is filled until `high_ms` are secured, up to the first hole that cannot
    /// be filled.
    pub open spec fn continuity_from(
        &self,
        plan: Seq<UploadAction>,
        seq: int,
        lead_ms: int,
    ) -> Seq<UploadAction>
        decreases self.encoded() + 1 - seq,
    {
        if lead_ms >= self.server.water.high_ms || seq > self.encoded() {
            plan
        } else if self.server_has(seq) {
            self.continuity_from(plan, seq + 1, lead_ms + self.seg_ms())
        } else {
            match self.fill_rung(plan, seq, self.prefers_quality()) {
                Some(rung) => self.continuity_from(
                    plan.push(self.continuity_action(seq, rung)),
                    seq + 1,
                    lead_ms + self.seg_ms(),
                ),
                None => plan,
            }
        }
    }

    /// The continuity tier.
    pub open spec fn continuity_plan(&self) -> Seq<UploadAction> {
        self.continuity_from(Seq::empty(), self.anchor(), 0)
    }

    /// Number of contiguous segments from `seq` on that the server has or that
    /// `plan` brings it.
    pub open spec fn secured_from(&self, plan: Seq<UploadAction>, seq: int) -> nat
        decreases self.encoded() + 1 - seq,
    {
        if seq <= self.encoded() && (self.server_has(seq) || plans(plan, seq)) {
            1 + self.secured_from(plan, seq + 1)
        } else {
            0
        }
    }

    /// Contiguous audio from the anchor on, once the continuity tier is sent.
    pub open spec fn lead_ms(&self) -> int {
        self.secured_from(self.continuity_plan(), self.anchor()) * self.seg_ms()
    }

    /// So little is secured that only continuity counts.
    pub open spec fn survival(&self) -> bool {
        self.lead_ms() < self.server.water.low_ms
    }

    /// Enough is secured to spend bytes on quality.
    pub open spec fn comfortable(&self) -> bool {
        self.lead_ms() >= self.server.water.high_ms
    }

    /// Live-edge cover from `seq` on: segments that are neither held nor
    /// planned are added while the budget lasts.
    pub open spec fn live_edge_from(&self, plan: Seq<UploadAction>, seq: int) -> Seq<UploadAction>
        decreases self.encoded() + 1 - seq,
    {
        if seq > self.encoded() {
            plan
        } else if self.server_has(seq) || plans(plan, seq) {
            self.live_edge_from(plan, seq + 1)
        } else {
            match self.fill_rung(plan, seq, !is_unknown(self.server)) {
                Some(rung) => if self.fits(
                    plan_kbps(self.profile, plan) + self.profile.spec_bitrate_of(rung),
                ) {
                    self.live_edge_from(plan.push(self.live_edge_action(seq, rung)), seq + 1)
                } else {
                    plan
                },
                None => self.live_edge_from(plan, seq + 1),
            }
        }
    }

    /// Segments in a stretch of audio, at least one.
    pub open spec fn segs_in(&self, ms: u32) -> int {
        if (ms as int) < self.seg_ms() {
            1
        } else {
            ms as int / self.seg_ms()
        }
    }

    /// First segment of the newest `target_ms`, but not before the anchor.
    pub open spec fn live_edge_start(&self) -> int {
        let start = self.encoded() - (self.segs_in(self.server.water.target_ms) - 1);
        if start < self.anchor() {
            self.anchor()
        } else {
            start
        }
    }

    /// The continuity and live-edge tiers.
    pub open spec fn covered_plan(&self) -> Seq<UploadAction> {
        if self.survival() {
            self.continuity_plan()
        } else {
            self.live_edge_from(self.continuity_plan(), self.live_edge_start())
        }
    }

    /// Upgrades from `seq` to `end`, one rung each, nearest first, while the
    /// budget lasts.
    pub open spec fn upgrades_from(
        &self,
        plan: Seq<UploadAction>,
        seq: int,
        end: int,
    ) -> Seq<UploadAction>
        decreases end + 1 - seq,
    {
        if seq > end {
            plan
        } else if plans(plan, seq) {
            self.upgrades_from(plan, seq + 1, end)
        } else {
            match self.upgrade_rung(seq) {
                Some(rung) => if self.fits(
                    plan_kbps(self.profile, plan) + self.profile.spec_bitrate_of(rung),
                ) {
                    self.upgrades_from(plan.push(self.upgrade_action(seq, rung)), seq + 1, end)
                } else {
                    plan
                },
                None => self.upgrades_from(plan, seq + 1, end),
            }
        }
    }

    /// The rung above what the server has, if it is on disk.
    pub open spec fn upgrade_rung(&self, seq: int) -> Option<RungId> {
        let current = match self.inv.best_at_server(seq) {
            Some(best) => best,
            None => self.low(),
        };
        match self.profile.spec_rung_above(current) {
            Some(rung) => if self.inv.holds(seq, rung) {
                Some(rung)
            } else {
                None
            },
            None => None,
        }
    }

    /// Last segment that can no longer be upgraded: the playout head, or what
    /// the decoder has been fed, whichever is later.
    pub open spec fn already_fed(&self) -> int {
        match self.server.playout.fed_seq {
            Some(fed) => if fed > self.anchor() {
                fed as int
            } else {
                self.anchor()
            },
            None => self.anchor(),
        }
    }

    /// Last segment that is upgraded: `high_ms` past what has been fed.
    pub open spec fn upgrade_end(&self) -> int {
        let end = self.already_fed() + self.segs_in(self.server.water.high_ms);
        if end < self.encoded() {
            end
        } else {
            self.encoded()
        }
    }

    /// All three tiers, in the order in which bandwidth is handed out.
    pub open spec fn full_plan(&self) -> Seq<UploadAction> {
        if self.comfortable() && !self.survival() {
            self.upgrades_from(self.covered_plan(), self.already_fed() + 1, self.upgrade_end())
        } else {
            self.covered_plan()
        }
    }

    /// The part of the full plan that is sent in one tick.
    pub open spec fn capped_plan(&self) -> Seq<UploadAction> {
        if self.full_plan().len() <= self.max_actions {
            self.full_plan()
        } else {
            self.full_plan().take(self.max_actions as int)
        }
    }
}

/// A plan with one more action put behind those that are no less urgent.
pub open spec fn insert_by_priority(plan: Seq<UploadAction>, action: UploadAction) -> Seq<
    UploadAction,
>
    decreases plan.len(),
{
    if plan.len() == 0 || plan.last().priority <= action.priority {
        plan.push(action)
    } else {
        insert_by_priority(plan.drop_last(), action).push(plan.last())
    }
}

/// A plan in the order of its priorities; equally urgent actions keep their
/// order.
pub open spec fn by_priority(plan: Seq<UploadAction>) -> Seq<UploadAction>
    decreases plan.len(),
{
    if plan.len() == 0 {
        plan
    } else {
        insert_by_priority(by_priority(plan.drop_last()), plan.last())
    }
}

/// The segment that anchors all urgency.
fn anchor(server: &ServerState, inv: &LocalInventory) -> (seq: SeqNo)
    ensures
        seq == anchor_of(server, inv),
{
    if has_active_head(server) {
        if let Some(seq) = server.playout.position_seq {
            return seq;
        }
    }
    match server.live_seq {
        Some(seq) => seq,
        None => inv.oldest_seq,
    }
}

/// A playout head is being defended.
fn has_active_head(server: &ServerState) -> (b: bool)
    ensures
        b == active_head(server),
{
    match server.playout.state {
        PlayoutState::Playing | PlayoutState::Paused | PlayoutState::Stalled => true,
        PlayoutState::Stopped | PlayoutState::Error => false,
    }
}

/// Nothing is known of the server.
fn says_nothing(server: &ServerState) -> (b: bool)
    ensures
        b == is_unknown(server),
{
    server.rev == 0 && server.live_seq.is_none()
}

/// Some planned action is for that segment.
fn already(plan: &Vec<UploadAction>, seq: SeqNo) -> (b: bool)
    ensures
        b == plans(plan@, seq as int),
{
    let mut i: usize = 0;
    while i < plan.len()
        invariant
            i <= plan@.len(),
            forall|j: int| 0 <= j < i ==> (#[trigger] plan@[j]).seq != seq,
        decreases plan@.len() - i,
    {
        if plan[i].seq == seq {
            return true;
        }
        i = i + 1;
    }
    false
}

/// A priority within its tier.
fn priority_at(base: u32, distance: u64) -> (priority: u32)
    ensures
        priority == tier_priority(base, distance as int),
{
    if distance > (u32::MAX - base) as u64 {
        u32::MAX
    } else {
        base + distance as u32
    }
}

proof fn lemma_plan_kbps_bound(profile: &StreamProfile, plan: Seq<UploadAction>)
    ensures
        0 <= plan_kbps(profile, plan) <= plan.len() * 0xffff_ffff,
    decreases plan.len(),
{
    if plan.len() > 0 {
        lemma_plan_kbps_bound(profile, plan.drop_last());
    }
}

proof fn lemma_plan_kbps_push(profile: &StreamProfile, plan: Seq<UploadAction>, a: UploadAction)
    ensures
        plan_kbps(profile, plan.push(a)) == plan_kbps(profile, plan) + profile.spec_bitrate_of(
            a.rung,
        ),
{
    assert(plan.push(a).drop_last() =~= plan);
}

proof fn lemma_prefix_push(plan: Seq<UploadAction>, a: UploadAction, full: Seq<UploadAction>)
    requires
        plan.push(a).is_prefix_of(full),
    ensures
        plan.is_prefix_of(full),
{
    assert(plan =~= plan.push(a).take(plan.len() as int));
    assert(plan =~= full.take(plan.len() as int));
}

proof fn lemma_prefix_trans(
    a: Seq<UploadAction>,
    b: Seq<UploadAction>,
    c: Seq<UploadAction>,
)
    requires
        a.is_prefix_of(b),
        b.is_prefix_of(c),
    ensures
        a.is_prefix_of(c),
{
    assert(a =~= c.take(a.len() as int));
}

impl<'a> SchedulerInput<'a> {
    pub(crate) proof fn lemma_continuity_extends(&self, plan: Seq<UploadAction>, seq: int, lead_ms: int)
        ensures
            plan.is_prefix_of(self.continuity_from(plan, seq, lead_ms)),
        decreases self.encoded() + 1 - seq,
    {
        if lead_ms >= self.server.water.high_ms || seq > self.encoded() {
        } else if self.server_has(seq) {
            self.lemma_continuity_extends(plan, seq + 1, lead_ms + self.seg_ms());
        } else if let Some(rung) = self.fill_rung(plan, seq, self.prefers_quality()) {
            let a = self.continuity_action(seq, rung);
            self.lemma_continuity_extends(plan.push(a), seq + 1, lead_ms + self.seg_ms());
            lemma_prefix_push(plan, a, self.continuity_from(plan, seq, lead_ms));
        }
    }

    pub(crate) proof fn lemma_live_edge_extends(&self, plan: Seq<UploadAction>, seq: int)
        ensures
            plan.is_prefix_of(self.live_edge_from(plan, seq)),
        decreases self.encoded() + 1 - seq,
    {
        if seq > self.encoded() {
        } else if self.server_has(seq) || plans(plan, seq) {
            self.lemma_live_edge_extends(plan, seq + 1);
        } else if let Some(rung) = self.fill_rung(plan, seq, !is_unknown(self.server)) {
            if self.fits(plan_kbps(self.profile, plan) + self.profile.spec_bitrate_of(rung)) {
                let a = self.live_edge_action(seq, rung);
                self.lemma_live_edge_extends(plan.push(a), seq + 1);
                lemma_prefix_push(plan, a, self.live_edge_from(plan, seq));
            }
        } else {
            self.lemma_live_edge_extends(plan, seq + 1);
        }
    }

    pub(crate) proof fn lemma_upgrades_extend(&self, plan: Seq<UploadAction>, seq: int, end: int)
        ensures
            plan.is_prefix_of(self.upgrades_from(plan, seq, end)),
        decreases end + 1 - seq,
    {
        if seq > end {
        } else if plans(plan, seq) {
            self.lemma_upgrades_extend(plan, seq + 1, end);
        } else if let Some(rung) = self.upgrade_rung(seq) {
            if self.fits(plan_kbps(self.profile, plan) + self.profile.spec_bitrate_of(rung)) {
                let a = self.upgrade_action(seq, rung);
                self.lemma_upgrades_extend(plan.push(a), seq + 1, end);
                lemma_prefix_push(plan, a, self.upgrades_from(plan, seq, end));
            }
        } else {
            self.lemma_upgrades_extend(plan, seq + 1, end);
        }
    }

    /// Each tier only adds to the one before it.
    pub(crate) proof fn lemma_tiers_extend(&self)
        ensures
            self.continuity_plan().is_prefix_of(self.covered_plan()),
            self.covered_plan().is_prefix_of(self.full_plan()),
    {
        self.lemma_live_edge_extends(self.continuity_plan(), self.live_edge_start());
        self.lemma_upgrades_extend(
            self.covered_plan(),
            self.already_fed() + 1,
            self.upgrade_end(),
        );
    }

    /// A full-length prefix of the plan is the capped plan.
    proof fn lemma_capped(&self, plan: Seq<UploadAction>)
        requires
            plan.is_prefix_of(self.full_plan()),
            plan.len() == self.max_actions || plan == self.full_plan() && plan.len()
                <= self.max_actions,
        ensures
            plan == self.capped_plan(),
    {
        assert(plan =~= self.full_plan().take(plan.len() as int));
    }

    /// Length of a segment, at least 1 ms.
    fn segment_len_ms(&self) -> (ms: u32)
        ensures
            ms == self.seg_ms(),
            ms >= 1,
    {
        if self.profile.segment_ms == 0 {
            1
        } else {
            self.profile.segment_ms
        }
    }

    /// A bitrate is within the throughput, less the headroom.
    fn within_budget(&self, kbps: u128) -> (b: bool)
        requires
            kbps <= 0x1_0000_0000_0000_0000_0000_0000,
        ensures
            b == self.fits(kbps as int),
    {
        assert(self.throughput_kbps * self.headroom_permille <= 0xffff_ffff * 0xffff_ffff)
            by (nonlinear_arith)
            requires
                0 <= self.throughput_kbps <= 0xffff_ffff,
                0 <= self.headroom_permille <= 0xffff_ffff,
        ;
        let budget: u64 = self.throughput_kbps as u64 * self.headroom_permille as u64;
        kbps * 1000 <= budget as u128
    }

    /// The rung at which a missing segment is sent after a plan that takes
    /// `spent` kbps.
    fn choose_fill(
        &self,
        plan: &Vec<UploadAction>,
        spent: u128,
        seq: SeqNo,
        want_preferred: bool,
    ) -> (rung: Option<RungId>)
        requires
            spent == plan_kbps(self.profile, plan@),
        ensures
            rung == self.fill_rung(plan@, seq as int, want_preferred),
    {
        proof {
            lemma_plan_kbps_bound(self.profile, plan@);
            assert(plan.len() <= usize::MAX);
        }
        let low = self.profile.low_rung();
        if want_preferred && self.preferred_rung != low && self.inv.has_rung(
            seq,
            self.preferred_rung,
        ) && self.within_budget(spent + self.profile.bitrate_of(self.preferred_rung) as u128) {
            Some(self.preferred_rung)
        } else if self.inv.has_rung(seq, low) {
            Some(low)
        } else {
            None
        }
    }

    /// Plans the continuity tier. Tells whether the plan is full, and what it
    /// takes.
    fn plan_continuity(&self, out: &mut Vec<UploadAction>) -> (res: (bool, u128))
        requires
            old(out)@.len() == 0,
            self.max_actions > 0,
            self.inv.encoded_seq < u64::MAX,
        ensures
            final(out)@.is_prefix_of(self.continuity_plan()),
            res.0 ==> final(out)@.len() == self.max_actions,
            !res.0 ==> final(out)@ == self.continuity_plan() && final(out)@.len()
                < self.max_actions,
            res.1 == plan_kbps(self.profile, final(out)@),
    {
        let seg_ms: u32 = self.segment_len_ms();
        let anchor: SeqNo = anchor(self.server, self.inv);
        let want_preferred = !has_active_head(self.server) && !says_nothing(self.server);
        let mut lead_ms: u32 = 0;
        let ghost mut lead: int = 0;
        let mut seq: SeqNo = anchor;
        let mut spent: u128 = 0;
        assert(out@ =~= Seq::empty());
        while lead_ms < self.server.water.high_ms && seq <= self.inv.encoded_seq
            invariant
                seg_ms == self.seg_ms(),
                seg_ms >= 1,
                anchor == self.anchor(),
                want_preferred == self.prefers_quality(),
                self.inv.encoded_seq < u64::MAX,
                self.max_actions > 0,
                anchor <= seq,
                lead >= 0,
                lead_ms == (if lead > u32::MAX {
                    u32::MAX as int
                } else {
                    lead
                }),
                out@.len() < self.max_actions,
                spent == plan_kbps(self.profile, out@),
                self.continuity_from(out@, seq as int, lead) == self.continuity_plan(),
            ensures
                out@.len() < self.max_actions,
                spent == plan_kbps(self.profile, out@),
                out@ == self.continuity_plan(),
            decreases self.inv.encoded_seq + 1 - seq,
        {
            proof {
                lemma_plan_kbps_bound(self.profile, out@);
            }
            if !self.inv.server_has_any(seq) {
                match self.choose_fill(out, spent, seq, want_preferred) {
                    Some(rung) => {
                        let action = UploadAction {
                            seq,
                            rung,
                            reason: UploadReason::Continuity,
                            priority: priority_at(P_CONTINUITY, seq - anchor),
                        };
                        assert(action == self.continuity_action(seq as int, rung));
                        proof {
                            lemma_plan_kbps_push(self.profile, out@, action);
                        }
                        out.push(action);
                        spent = spent + self.profile.bitrate_of(rung) as u128;
                    },
                    None => {
                        break;
                    },
                }
            }
            lead_ms = lead_ms.saturating_add(seg_ms);
            proof {
                lead = lead + seg_ms;
                self.lemma_continuity_extends(out@, seq + 1, lead);
            }
            if out.len() >= self.max_actions {
                return (true, spent);
            }
            seq = seq + 1;
        }
        (false, spent)
    }

    /// Contiguous audio from the anchor on, once `plan` is sent.
    fn secured_ms(&self, plan: &Vec<UploadAction>) -> (ms: u32)
        requires
            self.inv.encoded_seq < u64::MAX,
        ensures
            ({
                let exact = self.secured_from(plan@, self.anchor()) * self.seg_ms();
                ms == (if exact > u32::MAX {
                    u32::MAX as int
                } else {
                    exact
                })
            }),
    {
        let seg_ms: u32 = self.segment_len_ms();
        let mut ms: u32 = 0;
        let ghost mut count: int = 0;
        let mut seq: SeqNo = anchor(self.server, self.inv);
        while seq <= self.inv.encoded_seq && (self.inv.server_has_any(seq) || already(plan, seq))
            invariant
                seg_ms == self.seg_ms(),
                self.inv.encoded_seq < u64::MAX,
                count >= 0,
                count + self.secured_from(plan@, seq as int) == self.secured_from(
                    plan@,
                    self.anchor(),
                ),
                ms == (if count * self.seg_ms() > u32::MAX {
                    u32::MAX as int
                } else {
                    count * self.seg_ms()
                }),
            decreases self.inv.encoded_seq + 1 - seq,
        {
            proof {
                let g = self.seg_ms();
                assert((count + 1) * g == count * g + g) by (nonlinear_arith);
                assert(count * g >= 0) by (nonlinear_arith)
                    requires
                        count >= 0,
                        g >= 0,
                ;
                count = count + 1;
            }
            ms = ms.saturating_add(seg_ms);
            seq = seq + 1;
        }
        ms
    }

    /// Segments in a stretch of audio, at least one.
    fn segment_count(&self, ms: u32) -> (count: u32)
        ensures
            count == self.segs_in(ms),
            count >= 1,
    {
        let seg_ms: u32 = self.segment_len_ms();
        if ms < seg_ms {
            1
        } else {
            proof {
                vstd::arithmetic::div_mod::lemma_div_non_zero(ms as int, seg_ms as int);
            }
            ms / seg_ms
        }
    }

    /// Adds the live-edge tier. Tells whether the plan is full, and what it
    /// takes.
    fn plan_live_edge(&self, out: &mut Vec<UploadAction>, spent_before: u128) -> (res: (bool, u128))
        requires
            self.inv.encoded_seq < u64::MAX,
            old(out)@.len() <= self.max_actions,
            spent_before == plan_kbps(self.profile, old(out)@),
        ensures
            final(out)@.is_prefix_of(self.live_edge_from(old(out)@, self.live_edge_start())),
            res.0 ==> final(out)@.len() == self.max_actions,
            !res.0 ==> final(out)@ == self.live_edge_from(old(out)@, self.live_edge_start())
                && final(out)@.len() <= self.max_actions,
            res.1 == plan_kbps(self.profile, final(out)@),
    {
        let anchor: SeqNo = anchor(self.server, self.inv);
        let window: u64 = self.segment_count(self.server.water.target_ms) as u64;
        let start: SeqNo = self.inv.encoded_seq.saturating_sub(window - 1);
        let ghost target = self.live_edge_from(old(out)@, self.live_edge_start());
        let mut seq: SeqNo = if start < anchor {
            anchor
        } else {
            start
        };
        let want_preferred = !says_nothing(self.server);
        let mut spent: u128 = spent_before;
        assert(seq == self.live_edge_start());
        while seq <= self.inv.encoded_seq
            invariant
                self.inv.encoded_seq < u64::MAX,
                want_preferred == !is_unknown(self.server),
                out@.len() <= self.max_actions,
                spent == plan_kbps(self.profile, out@),
                target == self.live_edge_from(old(out)@, self.live_edge_start()),
                self.live_edge_from(out@, seq as int) == target,
            ensures
                out@.len() <= self.max_actions,
                spent == plan_kbps(self.profile, out@),
                out@ == target,
            decreases self.inv.encoded_seq + 1 - seq,
        {
            if out.len() >= self.max_actions {
                proof {
                    self.lemma_live_edge_extends(out@, seq as int);
                }
                return (true, spent);
            }
            proof {
                lemma_plan_kbps_bound(self.profile, out@);
            }
            if !self.inv.server_has_any(seq) && !already(out, seq) {
                if let Some(rung) = self.choose_fill(out, spent, seq, want_preferred) {
                    let cost: u128 = self.profile.bitrate_of(rung) as u128;
                    if !self.within_budget(spent + cost) {
                        break;
                    }
                    let action = UploadAction {
                        seq,
                        rung,
                        reason: UploadReason::LiveEdge,
                        priority: priority_at(P_LIVE_EDGE, self.inv.encoded_seq - seq),
                    };
                    assert(action == self.live_edge_action(seq as int, rung));
                    proof {
                        lemma_plan_kbps_push(self.profile, out@, action);
                    }
                    out.push(action);
                    spent = spent + cost;
                }
            }
            seq = seq + 1;
        }
        (false, spent)
    }

    /// Adds the upgrade tier. Tells whether the plan is full.
    fn plan_upgrades(&self, out: &mut Vec<UploadAction>, spent_before: u128) -> (full: bool)
        requires
            self.inv.encoded_seq < u64::MAX,
            old(out)@.len() <= self.max_actions,
            spent_before == plan_kbps(self.profile, old(out)@),
        ensures
            ({
                let target = self.upgrades_from(
                    old(out)@,
                    self.already_fed() + 1,
                    self.upgrade_end(),
                );
                &&& final(out)@.is_prefix_of(target)
                &&& full ==> final(out)@.len() == self.max_actions
                &&& !full ==> final(out)@ == target && final(out)@.len() <= self.max_actions
            }),
    {
        let anchor: SeqNo = anchor(self.server, self.inv);
        let low = self.profile.low_rung();
        let already_fed: SeqNo = match self.server.playout.fed_seq {
            Some(fed) => if fed > anchor {
                fed
            } else {
                anchor
            },
            None => anchor,
        };
        let ghost target = self.upgrades_from(
            old(out)@,
            self.already_fed() + 1,
            self.upgrade_end(),
        );
        if already_fed >= self.inv.encoded_seq {
            return false;
        }
        let window: u64 = self.segment_count(self.server.water.high_ms) as u64;
        let reach: u64 = self.inv.encoded_seq - already_fed;
        let end: SeqNo = already_fed + (if window < reach {
            window
        } else {
            reach
        });
        assert(end == self.upgrade_end());
        let mut seq: SeqNo = already_fed + 1;
        let mut spent: u128 = spent_before;
        while seq <= end
            invariant
                end <= self.inv.encoded_seq,
                self.inv.encoded_seq < u64::MAX,
                anchor == self.anchor(),
                anchor < seq,
                low == self.low(),
                out@.len() <= self.max_actions,
                spent == plan_kbps(self.profile, out@),
                target == self.upgrades_from(
                    old(out)@,
                    self.already_fed() + 1,
                    self.upgrade_end(),
                ),
                self.upgrades_from(out@, seq as int, end as int) == target,
            ensures
                out@.len() <= self.max_actions,
                out@ == target,
            decreases end + 1 - seq,
        {
            if out.len() >= self.max_actions {
                proof {
                    self.lemma_upgrades_extend(out@, seq as int, end as int);
                }
                return true;
            }
            proof {
                lemma_plan_kbps_bound(self.profile, out@);
            }
            if !already(out, seq) {
                let current: RungId = match self.inv.server_best(seq) {
                    Some(best) => best,
                    None => low,
                };
                if let Some(rung) = self.profile.rung_above(current) {
                    if self.inv.has_rung(seq, rung) {
                        let cost: u128 = self.profile.bitrate_of(rung) as u128;
                        if !self.within_budget(spent + cost) {
                            break;
                        }
                        let action = UploadAction {
                            seq,
                            rung,
                            reason: UploadReason::Upgrade,
                            priority: priority_at(P_UPGRADE, seq - anchor),
                        };
                        assert(action == self.upgrade_action(seq as int, rung));
                        proof {
                            lemma_plan_kbps_push(self.profile, out@, action);
                        }
                        out.push(action);
                        spent = spent + cost;
                    }
                }
            }
            seq = seq + 1;
        }
        false
    }
}

/// Puts one more action behind those that are no less urgent.
fn insert_action(plan: &mut Vec<UploadAction>, action: UploadAction)
    ensures
        final(plan)@ == insert_by_priority(old(plan)@, action),
{
    let ghost before = plan@;
    let mut i: usize = plan.len();
    let ghost mut tail: Seq<UploadAction> = Seq::empty();
    assert(before.take(i as int) + tail =~= before);
    assert(insert_by_priority(before.take(i as int), action) + tail =~= insert_by_priority(
        before,
        action,
    )) by {
        assert(before.take(i as int) =~= before);
    }
    while i > 0 && plan[i - 1].priority > action.priority
        invariant
            i <= plan@.len(),
            plan@ == before,
            tail == before.skip(i as int),
            insert_by_priority(before.take(i as int), action) + tail == insert_by_priority(
                before,
                action,
            ),
        decreases i,
    {
        proof {
            let head = before.take(i as int);
            assert(head.drop_last() =~= before.take(i - 1));
            assert(head.last() == before[i - 1]);
            tail = before.skip(i - 1);
            assert(insert_by_priority(head, action) + before.skip(i as int)
                =~= insert_by_priority(head.drop_last(), action) + tail) by {
                assert(tail =~= seq![before[i - 1]] + before.skip(i as int));
            }
        }
        i = i - 1;
    }
    assert(insert_by_priority(before.take(i as int), action) =~= before.take(i as int).push(
        action,
    ));
    plan.insert(i, action);
    assert(plan@ =~= before.take(i as int).push(action) + tail);
}

/// Puts a plan in the order of its priorities.
fn finish(plan: &Vec<UploadAction>) -> (sorted: Vec<UploadAction>)
    ensures
        sorted@ == by_priority(plan@),
{
    let mut sorted: Vec<UploadAction> = Vec::new();
    let mut i: usize = 0;
    assert(plan@.take(0) =~= Seq::empty());
    while i < plan.len()
        invariant
            i <= plan@.len(),
            sorted@ == by_priority(plan@.take(i as int)),
        decreases plan@.len() - i,
    {
        assert(plan@.take(i + 1).drop_last() =~= plan@.take(i as int));
        insert_action(&mut sorted, plan[i]);
        i = i + 1;
    }
    assert(plan@.take(i as int) =~= plan@);
    sorted
}

/// Plans the uploads of this tick, most urgent first.
pub fn plan_uploads(input: &SchedulerInput) -> (plan: Vec<UploadAction>)
    requires
        input.inv.encoded_seq < u64::MAX,
    ensures
        plan@ == by_priority(input.capped_plan()),
{
    let mut out: Vec<UploadAction> = Vec::new();
    proof {
        input.lemma_tiers_extend();
    }
    if input.max_actions == 0 {
        proof {
            input.lemma_capped(out@);
        }
        return finish(&out);
    }
    let (full, spent) = input.plan_continuity(&mut out);
    proof {
        lemma_prefix_trans(out@, input.continuity_plan(), input.covered_plan());
        lemma_prefix_trans(out@, input.covered_plan(), input.full_plan());
    }
    if full {
        proof {
            input.lemma_capped(out@);
        }
        return finish(&out);
    }
    let lead_ms: u32 = input.secured_ms(&out);
    let survival = lead_ms < input.server.water.low_ms;
    let comfortable = lead_ms >= input.server.water.high_ms;
    assert(survival == input.survival());
    assert(comfortable == input.comfortable());
    let mut spent: u128 = spent;
    if !survival {
        let (full, spent_b) = input.plan_live_edge(&mut out, spent);
        proof {
            lemma_prefix_trans(out@, input.covered_plan(), input.full_plan());
        }
        if full {
            proof {
                input.lemma_capped(out@);
            }
            return finish(&out);
        }
        spent = spent_b;
    }
    if comfortable && !survival {
        input.plan_upgrades(&mut out, spent);
    }
    proof {
        input.lemma_capped(out@);
    }
    finish(&out)
}

/// The run of segments from `seq` up to but excluding `end` that the server
/// has.
pub open spec fn held_until(inv: &LocalInventory, seq: int, end: int) -> bool {
    forall|s: int| seq <= s < end ==> #[trigger] inv.best_at_server(s) is Some
}

/// The server has everything from the anchor up to that segment, but not the
/// segment itself, and the encoder has moved past it.
pub open spec fn first_hole(server: &ServerState, inv: &LocalInventory, seq: int) -> bool {
    &&& anchor_of(server, inv) <= seq < inv.encoded_seq
    &&& held_until(inv, anchor_of(server, inv) as int, seq)
    &&& inv.best_at_server(seq) is None
}

/// The first segment, if any, that blocks continuity for good: the encoder has
/// moved past it, and neither end has it at the survival rung. The newest
/// segment is still being written and does not count.
pub fn stalled_continuity_seq(
    server: &ServerState,
    inv: &LocalInventory,
    profile: &StreamProfile,
) -> (stalled: Option<SeqNo>)
    ensures
        stalled matches Some(seq) ==> first_hole(server, inv, seq as int) && !inv.holds(
            seq as int,
            profile.spec_low_rung(),
        ),
        stalled is None ==> forall|seq: int|
            first_hole(server, inv, seq) ==> #[trigger] inv.holds(seq, profile.spec_low_rung()),
{
    let low = profile.low_rung();
    let start: SeqNo = anchor(server, inv);
    let mut seq: SeqNo = start;
    while seq < inv.encoded_seq
        invariant
            start <= seq,
            start == anchor_of(server, inv),
            low == profile.spec_low_rung(),
            held_until(inv, start as int, seq as int),
        decreases inv.encoded_seq - seq,
    {
        if inv.server_has_any(seq) {
            seq = seq + 1;
        } else if inv.has_rung(seq, low) {
            return None;
        } else {
            return Some(seq);
        }
    }
    None
}

} // verus!
