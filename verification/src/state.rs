//! State that the encoder and the server exchange over the link.
//!
//! The server tells the encoder where playout is, how much contiguous audio
//! sits ahead of that point and where the quality holes are. The encoder tells
//! the server what it has produced and which segments it has given up on.
//! `rev` fields only grow, so that a receiver can discard what arrives late.

use std::collections::BTreeSet;
use vstd::prelude::*;

use crate::text::{self, push_decimal};

verus! {

broadcast use vstd::std_specs::btree::group_btree_axioms;

/// Segment sequence number, the clock of the system.
pub type SeqNo = u64;

/// Quality rung id.
pub type RungId = u8;

/// Which AAC profile a rung is encoded with.
#[derive(Clone, Copy, Debug, PartialEq, Eq, Structural)]
pub enum AacCodec {
    /// AAC-LC, HLS `CODECS` tag `mp4a.40.2`.
    Lc,
    /// HE-AAC (v1/SBR), HLS `CODECS` tag `mp4a.40.5`.
    He,
}

/// One encoded quality rung.
#[derive(Clone, Debug, PartialEq, Eq)]
pub struct Rung {
    pub id: RungId,
    /// Human label, for instance "lo" or "hd".
    pub name: String,
    pub bitrate_kbps: u32,
    pub codec: AacCodec,
}

/// Segment length and bitrate ladder of a stream.
///
/// The ladder is ascending by bitrate. Any rung of it may be disabled for a
/// session, the lowest included: see [`StreamProfile::filtered`]. Whichever
/// rung is then the first one is the survival rung.
#[derive(Clone, Debug, PartialEq, Eq)]
pub struct StreamProfile {
    pub segment_ms: u32,
    pub rungs: Vec<Rung>,
}

/// The first rung of the ladder with the given id.
pub open spec fn rung_by_id(rungs: Seq<Rung>, id: RungId) -> Option<Rung>
    decreases rungs.len(),
{
    if rungs.len() == 0 {
        None
    } else if rungs[0].id == id {
        Some(rungs[0])
    } else {
        rung_by_id(rungs.drop_first(), id)
    }
}

/// The name of a rung, or its number where the ladder lacks it.
pub open spec fn rung_name(rungs: Seq<Rung>, id: RungId) -> Seq<char> {
    match rung_by_id(rungs, id) {
        Some(rung) => rung.name@,
        None => "rung "@ + text::decimal(id as nat),
    }
}

/// Some rung of the ladder has the given id.
pub open spec fn has_rung_id(rungs: Seq<Rung>, id: RungId) -> bool {
    exists|i: int| 0 <= i < rungs.len() && #[trigger] rungs[i].id == id
}

/// `i` is the place of the cheapest rung among those with an id above `floor`;
/// of several equally cheap ones, of the first.
pub open spec fn is_cheapest_above(rungs: Seq<Rung>, floor: int, i: int) -> bool {
    &&& 0 <= i < rungs.len()
    &&& rungs[i].id > floor
    &&& forall|j: int|
        0 <= j < rungs.len() && (#[trigger] rungs[j]).id > floor ==> rungs[i].bitrate_kbps
            <= rungs[j].bitrate_kbps && (j < i ==> rungs[i].bitrate_kbps < rungs[j].bitrate_kbps)
}

/// The cheapest rung among those with an id above `floor`, if there is one.
pub open spec fn cheapest_above(rungs: Seq<Rung>, floor: int) -> Option<Rung> {
    if exists|i: int| is_cheapest_above(rungs, floor, i) {
        Some(rungs[choose|i: int| is_cheapest_above(rungs, floor, i)])
    } else {
        None
    }
}

/// The rungs of a ladder that are in `enabled`, in ladder order; the single
/// cheapest rung where none of them is.
pub open spec fn filtered_rungs(rungs: Seq<Rung>, enabled: Set<RungId>) -> Seq<Rung> {
    let kept = rungs.filter(|r: Rung| enabled.contains(r.id));
    if kept.len() > 0 {
        kept
    } else {
        match cheapest_above(rungs, -1) {
            Some(r) => seq![r],
            None => Seq::empty(),
        }
    }
}

/// The ladder that every component ships, with a segment length.
pub open spec fn is_default_ladder(profile: StreamProfile, segment_ms: u32) -> bool {
    &&& profile.segment_ms == segment_ms
    &&& profile.rungs@.len() == 4
    &&& forall|i: int| 0 <= i < 4 ==> (#[trigger] profile.rungs@[i]).id == i
    &&& profile.rungs@[0].name@ == "lo"@
    &&& profile.rungs@[1].name@ == "mid"@
    &&& profile.rungs@[2].name@ == "hi"@
    &&& profile.rungs@[3].name@ == "hd"@
    &&& profile.rungs@[0].bitrate_kbps == 48
    &&& profile.rungs@[1].bitrate_kbps == 96
    &&& profile.rungs@[2].bitrate_kbps == 192
    &&& profile.rungs@[3].bitrate_kbps == 320
    &&& profile.rungs@[0].codec == AacCodec::He
    &&& forall|i: int| 1 <= i < 4 ==> (#[trigger] profile.rungs@[i]).codec == AacCodec::Lc
}

/// At most one place is the cheapest one.
pub proof fn lemma_cheapest_above_unique(rungs: Seq<Rung>, floor: int, i: int, j: int)
    requires
        is_cheapest_above(rungs, floor, i),
        is_cheapest_above(rungs, floor, j),
    ensures
        i == j,
{
    assert(rungs[i].id > floor && rungs[j].id > floor);
}

proof fn lemma_cheapest_above_is(rungs: Seq<Rung>, floor: int, i: int)
    requires
        is_cheapest_above(rungs, floor, i),
    ensures
        cheapest_above(rungs, floor) == Some(rungs[i]),
{
    let k = choose|k: int| is_cheapest_above(rungs, floor, k);
    lemma_cheapest_above_unique(rungs, floor, i, k);
}

proof fn lemma_rung_by_id_from(rungs: Seq<Rung>, id: RungId, i: int)
    requires
        0 <= i <= rungs.len(),
        forall|j: int| 0 <= j < i ==> (#[trigger] rungs[j]).id != id,
    ensures
        i < rungs.len() && rungs[i].id == id ==> rung_by_id(rungs, id) == Some(rungs[i]),
        i == rungs.len() ==> rung_by_id(rungs, id) is None,
    decreases rungs.len(),
{
    if i > 0 {
        let rest = rungs.drop_first();
        assert forall|j: int| 0 <= j < i - 1 implies (#[trigger] rest[j]).id != id by {
            assert(rest[j] == rungs[j + 1]);
        }
        lemma_rung_by_id_from(rest, id, i - 1);
    }
}

/// A ladder holds an id exactly if a rung is found under it.
pub proof fn lemma_rung_by_id_found(rungs: Seq<Rung>, id: RungId)
    ensures
        has_rung_id(rungs, id) <==> rung_by_id(rungs, id) is Some,
        rung_by_id(rungs, id) matches Some(r) ==> r.id == id && rungs.contains(r),
    decreases rungs.len(),
{
    if rungs.len() > 0 {
        let rest = rungs.drop_first();
        lemma_rung_by_id_found(rest, id);
        if rungs[0].id == id {
            assert(has_rung_id(rungs, id));
        } else {
            if has_rung_id(rungs, id) {
                let i = choose|i: int| 0 <= i < rungs.len() && #[trigger] rungs[i].id == id;
                assert(rest[i - 1] == rungs[i]);
            }
            if rung_by_id(rest, id) is Some {
                let i = choose|i: int| 0 <= i < rest.len() && rest[i] == rung_by_id(rest, id)->0;
                assert(rest[i] == rungs[i + 1]);
            }
        }
    }
}

/// Copies a rung.
fn copy_rung(r: &Rung) -> (c: Rung)
    ensures
        c == *r,
{
    Rung { id: r.id, name: r.name.clone(), bitrate_kbps: r.bitrate_kbps, codec: r.codec }
}

/// The place of the cheapest rung with an id above `floor`.
fn find_cheapest_above(rungs: &Vec<Rung>, floor: i16) -> (found: Option<usize>)
    ensures
        found matches Some(i) ==> is_cheapest_above(rungs@, floor as int, i as int),
        found is None ==> forall|j: int|
            0 <= j < rungs@.len() ==> (#[trigger] rungs@[j]).id <= floor,
{
    let mut best: Option<usize> = None;
    let mut i: usize = 0;
    while i < rungs.len()
        invariant
            i <= rungs@.len(),
            best matches Some(b) ==> b < i && is_cheapest_above(
                rungs@.take(i as int),
                floor as int,
                b as int,
            ),
            best is None ==> forall|j: int| 0 <= j < i ==> (#[trigger] rungs@[j]).id <= floor,
        decreases rungs@.len() - i,
    {
        let ghost before = rungs@.take(i as int);
        let ghost after = rungs@.take(i + 1);
        assert(forall|j: int| 0 <= j < i ==> before[j] == #[trigger] after[j]);
        assert(after[i as int] == rungs@[i as int]);
        if rungs[i].id as i16 > floor {
            match best {
                Some(b) => {
                    assert(before[b as int] == after[b as int]);
                    if rungs[i].bitrate_kbps < rungs[b].bitrate_kbps {
                        best = Some(i);
                    }
                },
                None => {
                    best = Some(i);
                },
            }
        }
        i = i + 1;
    }
    assert(rungs@.take(i as int) =~= rungs@);
    best
}

impl StreamProfile {
    /// The ladder that every component ships: 48/96/192/320 kbps AAC, the
    /// lowest rung HE-AAC.
    pub fn default_ladder(segment_ms: u32) -> (profile: Self)
        ensures
            is_default_ladder(profile, segment_ms),
    {
        let mut rungs: Vec<Rung> = Vec::new();
        rungs.push(
            Rung { id: 0, name: "lo".to_owned(), bitrate_kbps: 48, codec: AacCodec::He },
        );
        rungs.push(
            Rung { id: 1, name: "mid".to_owned(), bitrate_kbps: 96, codec: AacCodec::Lc },
        );
        rungs.push(
            Rung { id: 2, name: "hi".to_owned(), bitrate_kbps: 192, codec: AacCodec::Lc },
        );
        rungs.push(
            Rung { id: 3, name: "hd".to_owned(), bitrate_kbps: 320, codec: AacCodec::Lc },
        );
        StreamProfile { segment_ms, rungs }
    }

    /// This profile with only the `enabled` rungs, in their order. Where none
    /// of them is on the ladder, the cheapest rung of the ladder is kept: the
    /// link always needs some cheap option.
    pub fn filtered(&self, enabled: &BTreeSet<RungId>) -> (profile: Self)
        ensures
            profile.segment_ms == self.segment_ms,
            profile.rungs@ == filtered_rungs(self.rungs@, enabled@),
    {
        let mut rungs: Vec<Rung> = Vec::new();
        let ghost keep = |r: Rung| enabled@.contains(r.id);
        let mut i: usize = 0;
        while i < self.rungs.len()
            invariant
                i <= self.rungs@.len(),
                keep == (|r: Rung| enabled@.contains(r.id)),
                rungs@ == self.rungs@.take(i as int).filter(keep),
            decreases self.rungs@.len() - i,
        {
            proof {
                reveal(Seq::filter);
                assert(self.rungs@.take(i + 1).drop_last() =~= self.rungs@.take(i as int));
            }
            if enabled.contains(&self.rungs[i].id) {
                rungs.push(copy_rung(&self.rungs[i]));
            }
            i = i + 1;
        }
        assert(self.rungs@.take(i as int) =~= self.rungs@);
        if rungs.len() == 0 {
            match find_cheapest_above(&self.rungs, -1) {
                Some(k) => {
                    proof {
                        lemma_cheapest_above_is(self.rungs@, -1, k as int);
                    }
                    rungs.push(copy_rung(&self.rungs[k]));
                },
                None => {
                    assert(self.rungs@.len() == 0) by {
                        if self.rungs@.len() > 0 {
                            assert(self.rungs@[0].id <= -1);
                        }
                    }
                    let ghost floor: int = -1;
                    assert(forall|k: int| !is_cheapest_above(self.rungs@, floor, k));
                },
            }
        }
        StreamProfile { segment_ms: self.segment_ms, rungs }
    }

    /// Id of the survival rung: the first one, or 0 on an empty ladder.
    pub open spec fn spec_low_rung(&self) -> RungId {
        if self.rungs@.len() > 0 {
            self.rungs@[0].id
        } else {
            0
        }
    }

    /// Id of the survival rung: the first one, or 0 on an empty ladder.
    pub fn low_rung(&self) -> (id: RungId)
        ensures
            id == self.spec_low_rung(),
    {
        if self.rungs.len() > 0 {
            self.rungs[0].id
        } else {
            0
        }
    }

    /// Id of the best rung: the last one, or 0 on an empty ladder.
    pub fn top_rung(&self) -> (id: RungId)
        ensures
            id == (if self.rungs@.len() > 0 {
                self.rungs@.last().id
            } else {
                0
            }),
    {
        if self.rungs.len() > 0 {
            self.rungs[self.rungs.len() - 1].id
        } else {
            0
        }
    }

    /// The place of the first rung with the given id.
    fn find_rung(&self, rung: RungId) -> (found: Option<usize>)
        ensures
            found matches Some(i) ==> i < self.rungs@.len() && self.rungs@[i as int].id == rung
                && rung_by_id(self.rungs@, rung) == Some(self.rungs@[i as int]),
            found is None ==> rung_by_id(self.rungs@, rung) is None,
    {
        let mut i: usize = 0;
        while i < self.rungs.len()
            invariant
                i <= self.rungs@.len(),
                forall|j: int| 0 <= j < i ==> (#[trigger] self.rungs@[j]).id != rung,
            decreases self.rungs@.len() - i,
        {
            if self.rungs[i].id == rung {
                proof {
                    lemma_rung_by_id_from(self.rungs@, rung, i as int);
                }
                return Some(i);
            }
            i = i + 1;
        }
        proof {
            lemma_rung_by_id_from(self.rungs@, rung, i as int);
        }
        None
    }

    /// Bitrate of a rung, 0 for an id that is not on the ladder.
    pub open spec fn spec_bitrate_of(&self, rung: RungId) -> u32 {
        match rung_by_id(self.rungs@, rung) {
            Some(r) => r.bitrate_kbps,
            None => 0,
        }
    }

    /// Bitrate of a rung, 0 for an id that is not on the ladder.
    pub fn bitrate_of(&self, rung: RungId) -> (kbps: u32)
        ensures
            kbps == self.spec_bitrate_of(rung),
    {
        match self.find_rung(rung) {
            Some(i) => self.rungs[i].bitrate_kbps,
            None => 0,
        }
    }

    /// Name of a rung, or its number where the ladder lacks it.
    pub fn name_of(&self, rung: RungId) -> (name: String)
        ensures
            name@ == rung_name(self.rungs@, rung),
    {
        match self.find_rung(rung) {
            Some(i) => self.rungs[i].name.as_str().to_owned(),
            None => {
                let mut name = "rung ".to_owned();
                push_decimal(&mut name, rung as u64);
                name
            },
        }
    }

    /// Codec of a rung.
    pub fn codec_of(&self, rung: RungId) -> (codec: Option<AacCodec>)
        ensures
            codec == (match rung_by_id(self.rungs@, rung) {
                Some(r) => Some(r.codec),
                None => None,
            }),
    {
        match self.find_rung(rung) {
            Some(i) => Some(self.rungs[i].codec),
            None => None,
        }
    }

    /// One step up from `rung`: the cheapest rung with a greater id.
    pub open spec fn spec_rung_above(&self, rung: RungId) -> Option<RungId> {
        match cheapest_above(self.rungs@, rung as int) {
            Some(r) => Some(r.id),
            None => None,
        }
    }

    /// One step up from `rung`: the cheapest rung with a greater id.
    pub fn rung_above(&self, rung: RungId) -> (above: Option<RungId>)
        ensures
            above == self.spec_rung_above(rung),
    {
        match find_cheapest_above(&self.rungs, rung as i16) {
            Some(i) => {
                proof {
                    lemma_cheapest_above_is(self.rungs@, rung as int, i as int);
                }
                Some(self.rungs[i].id)
            },
            None => {
                assert forall|k: int| !is_cheapest_above(self.rungs@, rung as int, k) by {
                    if 0 <= k < self.rungs@.len() {
                        assert(self.rungs@[k].id <= rung);
                    }
                }
                None
            },
        }
    }

    /// The preferred rung where the ladder has it, else the survival rung.
    pub open spec fn spec_nearest(&self, preferred: RungId) -> RungId {
        if has_rung_id(self.rungs@, preferred) {
            preferred
        } else {
            self.spec_low_rung()
        }
    }

    /// The preferred rung where the ladder has it, else the survival rung.
    pub fn nearest_enabled_or_low(&self, preferred: RungId) -> (id: RungId)
        ensures
            id == self.spec_nearest(preferred),
    {
        proof {
            lemma_rung_by_id_found(self.rungs@, preferred);
        }
        match self.find_rung(preferred) {
            Some(_) => preferred,
            None => self.low_rung(),
        }
    }
}

/// State of the server's playout engine.
#[derive(Clone, Copy, Debug, PartialEq, Eq, Structural)]
pub enum PlayoutState {
    Stopped,
    Playing,
    Paused,
    /// Running and not paused, but no real audio is being rendered.
    Stalled,
    /// The engine cannot produce audio at all; `PlayoutStatus::detail` says why.
    Error,
}

/// Playout status snapshot.
#[derive(Clone, Debug, PartialEq, Eq)]
pub struct PlayoutStatus {
    pub state: PlayoutState,
    /// Segment being rendered, `None` when stopped.
    pub position_seq: Option<SeqNo>,
    /// Rung whose bytes are draining out of the hardware output right now.
    /// Locked in when the engine feeds the segment to its decoder.
    pub playing_rung: Option<RungId>,
    /// Highest segment that the engine has already fed to its decoder. Its
    /// rung can no longer change.
    pub fed_seq: Option<SeqNo>,
    /// How far into `position_seq` the audible output is.
    pub position_ms_into_segment: u32,
    /// Selected hardware output device.
    pub device: Option<String>,
    /// Linear gain in thousandths.
    pub volume_millis: u32,
    /// Reason behind `Error` or `Stalled`, where it is known.
    pub detail: Option<String>,
    /// The test tone is overriding the hardware output.
    pub test_tone: bool,
}

/// Buffer thresholds, in ms of contiguous audio ahead of the playout head.
#[derive(Clone, Copy, Debug, PartialEq, Eq, Structural)]
pub struct WaterLevels {
    /// Below this only the survival rung is sent.
    pub low_ms: u32,
    /// The margin that the encoder aims to keep.
    pub target_ms: u32,
    /// From here on quality upgrades are permitted.
    pub high_ms: u32,
}

impl Default for WaterLevels {
    fn default() -> (water: Self)
        ensures
            water == (WaterLevels { low_ms: 4_000, target_ms: 12_000, high_ms: 20_000 }),
    {
        WaterLevels { low_ms: 4_000, target_ms: 12_000, high_ms: 20_000 }
    }
}

/// The best rung that the server holds for one segment, `None` for a gap.
#[derive(Clone, Copy, Debug, PartialEq, Eq, Structural)]
pub struct SegCoverage {
    pub seq: SeqNo,
    pub best_rung: Option<RungId>,
}

/// What the server tells the encoder.
#[derive(Clone, Debug, PartialEq, Eq)]
pub struct ServerState {
    /// Grows with every change.
    pub rev: u64,
    /// Newest segment held at any rung.
    pub live_seq: Option<SeqNo>,
    /// Oldest segment retained in the DVR window.
    pub dvr_start_seq: Option<SeqNo>,
    pub playout: PlayoutStatus,
    /// Last segment of the contiguous playable run from the anchor.
    pub frontier_seq: Option<SeqNo>,
    /// Length of that run.
    pub lead_ms: u32,
    pub water: WaterLevels,
    /// Best rung per segment for a bounded window from the anchor.
    pub coverage: Vec<SegCoverage>,
    /// Contiguous audio held from `dvr_start_seq` on, up to the first gap.
    pub buffered_ms: u32,
    /// No encoder has been heard from for longer than the staleness limit, or
    /// none ever has: a fresh encoder starts over.
    pub stale_session: bool,
}

impl ServerState {
    /// What an encoder that has heard nothing goes by: stopped, nothing
    /// buffered.
    pub fn unknown() -> (server: Self)
        ensures
            server.rev == 0,
            server.live_seq is None,
            server.dvr_start_seq is None,
            server.playout.state == PlayoutState::Stopped,
            server.playout.position_seq is None,
            server.playout.playing_rung is None,
            server.playout.fed_seq is None,
            server.playout.position_ms_into_segment == 0,
            server.playout.device is None,
            server.playout.volume_millis == 1000,
            server.playout.detail is None,
            !server.playout.test_tone,
            server.frontier_seq is None,
            server.lead_ms == 0,
            server.water == (WaterLevels { low_ms: 4_000, target_ms: 12_000, high_ms: 20_000 }),
            server.coverage@.len() == 0,
            server.buffered_ms == 0,
            !server.stale_session,
    {
        ServerState {
            rev: 0,
            live_seq: None,
            dvr_start_seq: None,
            playout: PlayoutStatus {
                state: PlayoutState::Stopped,
                position_seq: None,
                playing_rung: None,
                fed_seq: None,
                position_ms_into_segment: 0,
                device: None,
                volume_millis: 1000,
                detail: None,
                test_tone: false,
            },
            frontier_seq: None,
            lead_ms: 0,
            water: WaterLevels::default(),
            coverage: Vec::new(),
            buffered_ms: 0,
            stale_session: false,
        }
    }
}

/// What the encoder tells the server.
#[derive(Clone, Debug, PartialEq, Eq)]
pub struct EncoderState {
    pub rev: u64,
    /// Rungs being produced.
    pub active_rungs: Vec<RungId>,
    /// Highest segment produced.
    pub encoded_seq: Option<SeqNo>,
    /// Rung being prioritized.
    pub primary_rung: RungId,
    /// Recent measured upload throughput.
    pub throughput_kbps: u32,
    /// Segments queued and not yet acknowledged.
    pub backlog: u32,
    /// Segments that will never be sent.
    pub abandoned: Vec<SeqNo>,
    /// Once the server has this much buffered while stopped, it starts playout
    /// on its own. `None` disables that.
    pub auto_start_buffer_ms: Option<u32>,
}

/// There is a cheapest rung among the first `n`, if one of them has an id above
/// `floor`.
proof fn lemma_cheapest_exists(rungs: Seq<Rung>, floor: int, n: int, k: int)
    requires
        0 <= k < n <= rungs.len(),
        rungs[k].id > floor,
    ensures
        exists|i: int| is_cheapest_above(rungs.take(n), floor, i),
    decreases n,
{
    let head = rungs.take(n - 1);
    let all = rungs.take(n);
    if exists|j: int| 0 <= j < n - 1 && (#[trigger] rungs[j]).id > floor {
        let j = choose|j: int| 0 <= j < n - 1 && (#[trigger] rungs[j]).id > floor;
        lemma_cheapest_exists(rungs, floor, n - 1, j);
        let i = choose|i: int| is_cheapest_above(head, floor, i);
        assert(forall|m: int| 0 <= m < n - 1 ==> head[m] == #[trigger] all[m]);
        if rungs[n - 1].id > floor && rungs[n - 1].bitrate_kbps < rungs[i].bitrate_kbps {
            assert forall|m: int| 0 <= m < n && (#[trigger] all[m]).id > floor implies all[n
                - 1].bitrate_kbps <= all[m].bitrate_kbps && (m < n - 1 ==> all[n - 1].bitrate_kbps
                < all[m].bitrate_kbps) by {
                if m < n - 1 {
                    assert(head[m].id > floor);
                }
            }
            assert(is_cheapest_above(all, floor, n - 1));
        } else {
            assert forall|m: int| 0 <= m < n && (#[trigger] all[m]).id > floor implies all[i].bitrate_kbps
                <= all[m].bitrate_kbps && (m < i ==> all[i].bitrate_kbps
                < all[m].bitrate_kbps) by {
                if m < n - 1 {
                    assert(head[m].id > floor);
                }
            }
            assert(is_cheapest_above(all, floor, i));
        }
    } else {
        assert(k == n - 1);
        assert(is_cheapest_above(all, floor, k));
    }
}

/// Disabling rungs never empties a ladder: some cheap option is left.
pub proof fn law_filtering_leaves_a_rung(rungs: Seq<Rung>, enabled: Set<RungId>)
    requires
        rungs.len() > 0,
    ensures
        filtered_rungs(rungs, enabled).len() > 0,
{
    lemma_cheapest_exists(rungs, -1, rungs.len() as int, 0);
    assert(rungs.take(rungs.len() as int) =~= rungs);
}

/// A filtered ladder only has rungs of the ladder, and where it has more than
/// the cheap option that is left of last resort, only enabled ones.
pub proof fn law_filtering_keeps_enabled_rungs(rungs: Seq<Rung>, enabled: Set<RungId>, i: int)
    requires
        0 <= i < filtered_rungs(rungs, enabled).len(),
    ensures
        rungs.contains(filtered_rungs(rungs, enabled)[i]),
        (exists|k: int| 0 <= k < rungs.len() && enabled.contains((#[trigger] rungs[k]).id))
            ==> enabled.contains(filtered_rungs(rungs, enabled)[i].id),
{
    broadcast use vstd::seq_lib::group_filter_ensures;

    let keep = |r: Rung| enabled.contains(r.id);
    let kept = rungs.filter(keep);
    assert(filtered_rungs(rungs, enabled) == (if kept.len() > 0 {
        kept
    } else {
        match cheapest_above(rungs, -1) {
            Some(r) => seq![r],
            None => Seq::empty(),
        }
    }));
    if kept.len() > 0 {
        lemma_filter_from(rungs, keep, i);
    } else {
        if exists|k: int| 0 <= k < rungs.len() && enabled.contains((#[trigger] rungs[k]).id) {
            let k = choose|k: int| 0 <= k < rungs.len() && enabled.contains((#[trigger] rungs[k]).id);
            assert(keep(rungs[k]));
            assert(kept.contains(rungs[k]));
        }
        let floor: int = -1;
        let m = choose|m: int| is_cheapest_above(rungs, floor, m);
        assert(is_cheapest_above(rungs, floor, m));
        assert(rungs.contains(rungs[m]));
    }
}

/// What a filter keeps was there.
proof fn lemma_filter_from(rungs: Seq<Rung>, keep: spec_fn(Rung) -> bool, i: int)
    requires
        0 <= i < rungs.filter(keep).len(),
    ensures
        rungs.contains(rungs.filter(keep)[i]),
    decreases rungs.len(),
{
    reveal(Seq::filter);
    if rungs.len() > 0 {
        let head = rungs.drop_last();
        if i < head.filter(keep).len() {
            lemma_filter_from(head, keep, i);
            let k = choose|k: int| 0 <= k < head.len() && head[k] == head.filter(keep)[i];
            assert(rungs[k] == rungs.filter(keep)[i]);
        } else {
            assert(rungs[rungs.len() - 1] == rungs.filter(keep)[i]);
        }
    }
}

/// One step up reaches a rung with a greater id, and no rung with a greater id
/// is cheaper. There is no step up only from the top.
pub proof fn law_a_step_up_is_the_cheapest(profile: &StreamProfile, rung: RungId, k: int)
    requires
        0 <= k < profile.rungs@.len(),
        profile.rungs@[k].id > rung,
    ensures
        profile.spec_rung_above(rung) matches Some(above) && above > rung,
        cheapest_above(profile.rungs@, rung as int) matches Some(r) && r.bitrate_kbps
            <= profile.rungs@[k].bitrate_kbps,
{
    lemma_cheapest_exists(profile.rungs@, rung as int, profile.rungs@.len() as int, k);
    assert(profile.rungs@.take(profile.rungs@.len() as int) =~= profile.rungs@);
}

/// Every rung that is enabled is kept, in the order of the ladder; where none is, the one
/// rung that is left is no dearer than any other.
pub proof fn law_filtering_drops_only_disabled_rungs(
    rungs: Seq<Rung>,
    enabled: Set<RungId>,
    k: int,
)
    requires
        0 <= k < rungs.len(),
    ensures
        enabled.contains(rungs[k].id) ==> filtered_rungs(rungs, enabled).contains(rungs[k]),
        (forall|j: int| 0 <= j < rungs.len() ==> !enabled.contains((#[trigger] rungs[j]).id)) ==> {
            &&& filtered_rungs(rungs, enabled).len() == 1
            &&& filtered_rungs(rungs, enabled)[0].bitrate_kbps <= rungs[k].bitrate_kbps
        },
        (forall|j: int| 0 <= j < rungs.len() ==> enabled.contains((#[trigger] rungs[j]).id))
            ==> filtered_rungs(rungs, enabled) == rungs,
{
    broadcast use vstd::seq_lib::group_filter_ensures;

    let keep = |r: Rung| enabled.contains(r.id);
    let kept = rungs.filter(keep);
    let floor: int = -1;
    if enabled.contains(rungs[k].id) {
        assert(keep(rungs[k]));
        assert(kept.contains(rungs[k]));
    }
    if forall|j: int| 0 <= j < rungs.len() ==> !enabled.contains((#[trigger] rungs[j]).id) {
        lemma_cheapest_exists(rungs, floor, rungs.len() as int, k);
        assert(rungs.take(rungs.len() as int) =~= rungs);
        if kept.len() > 0 {
            lemma_filter_from(rungs, keep, 0);
            assert(keep(kept[0]));
            let j = choose|j: int| 0 <= j < rungs.len() && rungs[j] == kept[0];
            assert(!enabled.contains(rungs[j].id));
        }
        let m = choose|m: int| is_cheapest_above(rungs, floor, m);
        assert(is_cheapest_above(rungs, floor, m));
        assert(rungs[k].id > floor);
    }
    if forall|j: int| 0 <= j < rungs.len() ==> enabled.contains((#[trigger] rungs[j]).id) {
        lemma_filter_all(rungs, keep);
    }
}

/// A filter that passes everything changes nothing.
proof fn lemma_filter_all(rungs: Seq<Rung>, keep: spec_fn(Rung) -> bool)
    requires
        forall|i: int| 0 <= i < rungs.len() ==> keep(#[trigger] rungs[i]),
    ensures
        rungs.filter(keep) == rungs,
    decreases rungs.len(),
{
    reveal(Seq::filter);
    if rungs.len() > 0 {
        let head = rungs.drop_last();
        assert forall|i: int| 0 <= i < head.len() implies keep(#[trigger] head[i]) by {
            assert(head[i] == rungs[i]);
        }
        lemma_filter_all(head, keep);
        assert(keep(rungs[rungs.len() - 1]));
        assert(head.push(rungs.last()) =~= rungs);
    }
}

/// Bitrate, name and codec of a rung are looked up under its id: those of the first rung
/// that has it. Nothing is known of an id that the ladder lacks.
pub proof fn law_a_rung_is_found_by_its_id(profile: &StreamProfile, k: int)
    requires
        0 <= k < profile.rungs@.len(),
        forall|j: int| 0 <= j < k ==> (#[trigger] profile.rungs@[j]).id != profile.rungs@[k].id,
    ensures
        profile.spec_bitrate_of(profile.rungs@[k].id) == profile.rungs@[k].bitrate_kbps,
        rung_name(profile.rungs@, profile.rungs@[k].id) == profile.rungs@[k].name@,
        rung_by_id(profile.rungs@, profile.rungs@[k].id) == Some(profile.rungs@[k]),
        profile.spec_nearest(profile.rungs@[k].id) == profile.rungs@[k].id,
        profile.spec_low_rung() == profile.rungs@[0].id,
{
    lemma_rung_by_id_from(profile.rungs@, profile.rungs@[k].id, k);
    assert(has_rung_id(profile.rungs@, profile.rungs@[k].id));
}

/// An id that the ladder lacks costs nothing, has its number for a name, and is replaced by
/// the first rung where a rung of the ladder is wanted.
pub proof fn law_an_unknown_rung_is_replaced(profile: &StreamProfile, id: RungId)
    requires
        forall|j: int| 0 <= j < profile.rungs@.len() ==> (#[trigger] profile.rungs@[j]).id != id,
    ensures
        profile.spec_bitrate_of(id) == 0,
        rung_name(profile.rungs@, id) == "rung "@ + text::decimal(id as nat),
        profile.rungs@.len() > 0 ==> profile.spec_nearest(id) == profile.rungs@[0].id,
{
    lemma_rung_by_id_from(profile.rungs@, id, profile.rungs@.len() as int);
}

/// The shipped ladder climbs: 48, 96, 192 and 320 kbps under the ids 0 to 3, so that one
/// step up is always the next rung and there is none from the top.
pub proof fn law_the_shipped_ladder_climbs(profile: &StreamProfile, segment_ms: u32, id: RungId)
    requires
        is_default_ladder(*profile, segment_ms),
    ensures
        profile.segment_ms == segment_ms,
        profile.spec_low_rung() == 0,
        profile.spec_bitrate_of(0) == 48,
        profile.spec_bitrate_of(1) == 96,
        profile.spec_bitrate_of(2) == 192,
        profile.spec_bitrate_of(3) == 320,
        id < 3 ==> profile.spec_rung_above(id) == Some((id + 1) as u8),
        id >= 3 ==> profile.spec_rung_above(id) is None,
{
    let rungs = profile.rungs@;
    lemma_rung_by_id_from(rungs, 0, 0);
    lemma_rung_by_id_from(rungs, 1, 1);
    lemma_rung_by_id_from(rungs, 2, 2);
    lemma_rung_by_id_from(rungs, 3, 3);
    if id < 3 {
        let k = id + 1;
        assert(rungs[k].id == k);
        assert(rungs[0].id == 0 && rungs[1].id == 1 && rungs[2].id == 2 && rungs[3].id == 3);
        assert(is_cheapest_above(rungs, id as int, k));
        lemma_cheapest_above_is(rungs, id as int, k);
    } else {
        assert forall|k: int| !is_cheapest_above(rungs, id as int, k) by {
            if 0 <= k < 4 {
                assert(rungs[k].id == k);
            }
        }
    }
}

} // verus!
