//! Index of the DVR window.
//!
//! Segment bytes live on disk; the store knows which `(seq, rung)` pairs exist
//! there, and derives from that and from the playout status what the encoder is
//! told. It touches no file itself.

use std::collections::{BTreeMap, BTreeSet};
use vstd::prelude::*;

use crate::sorted::{sorted_keys, sorted_members};
use crate::state::{
    EncoderState, PlayoutState, PlayoutStatus, RungId, SegCoverage, SeqNo, ServerState,
    StreamProfile, WaterLevels,
};
use crate::text::push_decimal;
use crate::{sorted, text};

verus! {

broadcast use vstd::std_specs::btree::group_btree_axioms;

/// How many segments past the anchor `coverage` reports.
pub const COVERAGE_WINDOW_SEGS: u64 = 64;

/// Index of one stream's DVR window.
pub struct DvrStore {
    profile: StreamProfile,
    water: WaterLevels,
    /// Length of the window, `None` for an unbounded one.
    dvr_window_segs: Option<u64>,
    data_dir: String,
    rev: u64,
    /// Rungs on disk per segment.
    index: BTreeMap<SeqNo, BTreeSet<RungId>>,
    /// Segments that the encoder gave up on.
    abandoned: BTreeSet<SeqNo>,
    /// Latest encoder telemetry.
    encoder_state: Option<EncoderState>,
    /// The buffer request that playout has already been started for.
    auto_start_fired: Option<u32>,
}

/// What the store holds: the rungs on disk of each segment.
pub type Holdings = Map<SeqNo, Set<RungId>>;

/// `seq` is the newest segment held.
pub open spec fn is_newest(held: Holdings, seq: SeqNo) -> bool {
    held.contains_key(seq) && forall|s: SeqNo| #[trigger] held.contains_key(s) ==> s <= seq
}

/// `seq` is the oldest segment held.
pub open spec fn is_oldest(held: Holdings, seq: SeqNo) -> bool {
    held.contains_key(seq) && forall|s: SeqNo| #[trigger] held.contains_key(s) ==> seq <= s
}

/// The newest segment held.
pub open spec fn newest(held: Holdings) -> Option<SeqNo> {
    if exists|s: SeqNo| is_newest(held, s) {
        Some(choose|s: SeqNo| is_newest(held, s))
    } else {
        None
    }
}

/// The oldest segment held.
pub open spec fn oldest(held: Holdings) -> Option<SeqNo> {
    if exists|s: SeqNo| is_oldest(held, s) {
        Some(choose|s: SeqNo| is_oldest(held, s))
    } else {
        None
    }
}

/// The best rung on disk of a segment.
pub open spec fn is_best(held: Holdings, seq: SeqNo, rung: RungId) -> bool {
    &&& held.contains_key(seq)
    &&& held[seq].contains(rung)
    &&& forall|r: RungId| #[trigger] held[seq].contains(r) ==> r <= rung
}

/// `best` is the best rung on disk of a segment, `None` if there is none.
pub open spec fn is_best_or_none(held: Holdings, seq: SeqNo, best: Option<RungId>) -> bool {
    match best {
        Some(rung) => is_best(held, seq, rung),
        None => !held.contains_key(seq),
    }
}

/// Playout need not wait for the segment: it is on disk, or given up.
pub open spec fn settled(held: Holdings, given_up: Set<SeqNo>, seq: int) -> bool {
    held.contains_key(seq as u64) || given_up.contains(seq as u64)
}

/// Number of contiguous settled segments from `seq` up to `live`.
pub open spec fn settled_run(held: Holdings, given_up: Set<SeqNo>, seq: int, live: int) -> nat
    decreases live + 1 - seq,
{
    if seq <= live && settled(held, given_up, seq) {
        1 + settled_run(held, given_up, seq + 1, live)
    } else {
        0
    }
}

/// The segment was given up, and has not come after all.
pub open spec fn is_gap(held: Holdings, given_up: Set<SeqNo>, seq: int) -> bool {
    given_up.contains(seq as u64) && !held.contains_key(seq as u64)
}

/// Number of segments from `seq` to `live` that were given up and have not come.
pub open spec fn gaps_between(held: Holdings, given_up: Set<SeqNo>, seq: int, live: int) -> nat
    decreases live + 1 - seq,
{
    if seq > live {
        0
    } else {
        gaps_between(held, given_up, seq + 1, live) + (if is_gap(held, given_up, seq) {
            1nat
        } else {
            0
        })
    }
}

/// A number that is kept within what a `u32` holds.
pub open spec fn clamp_u32(n: int) -> u32 {
    if n > u32::MAX {
        u32::MAX
    } else {
        n as u32
    }
}

/// A directory with the separator behind it.
pub open spec fn dir_prefix(dir: Seq<char>) -> Seq<char> {
    if dir.len() == 0 || dir.last() == '/' {
        dir
    } else {
        dir + "/"@
    }
}

/// The file of a segment: `{dir}/{rung}/{seq}.ts`.
pub open spec fn segment_file(dir: Seq<char>, rung: RungId, seq: SeqNo) -> Seq<char> {
    dir_prefix(dir) + text::decimal(rung as nat) + "/"@ + text::decimal(seq as nat) + ".ts"@
}

/// The first segment that stays: the window counts back from the newest one,
/// but never passes the playout head.
pub open spec fn window_floor(held: Holdings, window: Option<u64>, head: Option<SeqNo>) -> int {
    match (newest(held), window) {
        (Some(live), Some(segs)) => {
            let floor = if live >= segs {
                live - segs
            } else {
                0
            };
            match head {
                Some(pos) => if pos < floor {
                    pos as int
                } else {
                    floor
                },
                None => floor,
            }
        },
        _ => 0,
    }
}

/// `kept` is what is left of `held` from `floor` on.
pub open spec fn is_trimmed(held: Holdings, kept: Holdings, floor: int) -> bool {
    &&& forall|s: SeqNo| #[trigger]
        kept.contains_key(s) <==> held.contains_key(s) && s >= floor
    &&& forall|s: SeqNo| #[trigger] kept.contains_key(s) ==> kept[s] == held[s]
}

/// `pairs` lists what `held` has below `floor`, by segment, then by rung.
pub open spec fn lists_below(pairs: Seq<(SeqNo, RungId)>, held: Holdings, floor: int) -> bool {
    &&& forall|i: int, j: int|
        0 <= i < j < pairs.len() ==> {
            ||| (#[trigger] pairs[i]).0 < (#[trigger] pairs[j]).0
            ||| pairs[i].0 == pairs[j].0 && pairs[i].1 < pairs[j].1
        }
    &&& forall|s: SeqNo, r: RungId| #[trigger]
        pairs.contains((s, r)) <==> s < floor && held.contains_key(s) && held[s].contains(r)
}

/// `held` with one more rung of a segment.
pub open spec fn with_rung(held: Holdings, rung: RungId, seq: SeqNo) -> Holdings {
    held.insert(
        seq,
        if held.contains_key(seq) {
            held[seq].insert(rung)
        } else {
            Set::empty().insert(rung)
        },
    )
}

/// The segment from which the contiguous run is measured: the playout head
/// while there is one, else the live edge.
pub open spec fn state_anchor(playout: PlayoutStatus, live: Option<SeqNo>) -> Option<SeqNo> {
    let active = playout.state == PlayoutState::Playing || playout.state == PlayoutState::Paused
        || playout.state == PlayoutState::Stalled;
    if active && playout.position_seq is Some {
        playout.position_seq
    } else {
        live
    }
}

/// At most one segment is the newest, and at most one the oldest.
pub proof fn lemma_ends_unique(held: Holdings, a: SeqNo, b: SeqNo)
    ensures
        is_newest(held, a) && is_newest(held, b) ==> a == b,
        is_oldest(held, a) && is_oldest(held, b) ==> a == b,
{
}

proof fn lemma_newest_is(held: Holdings, seq: SeqNo)
    requires
        is_newest(held, seq),
    ensures
        newest(held) == Some(seq),
{
    lemma_ends_unique(held, seq, choose|s: SeqNo| is_newest(held, s));
}

proof fn lemma_oldest_is(held: Holdings, seq: SeqNo)
    requires
        is_oldest(held, seq),
    ensures
        oldest(held) == Some(seq),
{
    lemma_ends_unique(held, seq, choose|s: SeqNo| is_oldest(held, s));
}

/// What is held of each segment, given the rungs in the index.
spec fn holdings_of(index: Map<SeqNo, BTreeSet<RungId>>) -> Holdings {
    index.map_values(|rungs: BTreeSet<RungId>| rungs@)
}

impl DvrStore {
    pub closed spec fn profile_of(&self) -> StreamProfile {
        self.profile
    }

    pub closed spec fn water_of(&self) -> WaterLevels {
        self.water
    }

    /// Length of the window in segments, `None` for an unbounded one.
    pub closed spec fn window(&self) -> Option<u64> {
        self.dvr_window_segs
    }

    pub closed spec fn dir(&self) -> Seq<char> {
        self.data_dir@
    }

    pub closed spec fn revision(&self) -> u64 {
        self.rev
    }

    /// The rungs on disk of each segment.
    pub closed spec fn held(&self) -> Holdings {
        holdings_of(self.index@)
    }

    /// The segments that the encoder gave up on.
    pub closed spec fn given_up(&self) -> Set<SeqNo> {
        self.abandoned@
    }

    pub closed spec fn telemetry(&self) -> Option<EncoderState> {
        self.encoder_state
    }

    /// The buffer request that playout has already been started for.
    pub closed spec fn auto_started(&self) -> Option<u32> {
        self.auto_start_fired
    }

    /// Every segment held is there at some rung.
    pub open spec fn wf(&self) -> bool {
        forall|s: SeqNo| #[trigger]
            self.held().contains_key(s) ==> exists|r: RungId| self.held()[s].contains(r)
    }

    /// Nothing but holdings, given-up segments and revision may differ.
    pub open spec fn same_setup(&self, other: &DvrStore) -> bool {
        &&& self.profile_of() == other.profile_of()
        &&& self.water_of() == other.water_of()
        &&& self.window() == other.window()
        &&& self.dir() == other.dir()
    }

    /// The segment is on disk at that rung.
    pub open spec fn holds(&self, rung: RungId, seq: SeqNo) -> bool {
        self.held().contains_key(seq) && self.held()[seq].contains(rung)
    }

    /// How a segment that arrives changes the store into `after`, with the playout
    /// head at `head`: `reaped` is what leaves. A segment that is there already
    /// changes nothing.
    pub open spec fn records(
        &self,
        rung: RungId,
        seq: SeqNo,
        head: Option<SeqNo>,
        reaped: Seq<(SeqNo, RungId)>,
        after: &DvrStore,
    ) -> bool {
        &&& after.same_setup(self)
        &&& after.telemetry() == self.telemetry()
        &&& after.auto_started() == self.auto_started()
        &&& if self.holds(rung, seq) {
            &&& after.held() == self.held()
            &&& after.given_up() == self.given_up()
            &&& after.revision() == self.revision()
            &&& reaped.len() == 0
        } else {
            let added = with_rung(self.held(), rung, seq);
            let floor = window_floor(added, self.window(), head);
            &&& after.revision() == self.revision() + 1
            &&& is_trimmed(added, after.held(), floor)
            &&& forall|s: SeqNo| #[trigger]
                after.given_up().contains(s) <==> self.given_up().contains(s) && !(
                added.contains_key(s) && s < floor)
            &&& lists_below(reaped, added, floor)
        }
    }

    /// How segments that are given up change the store into `after`.
    pub open spec fn gives_up(&self, seqs: Seq<SeqNo>, after: &DvrStore) -> bool {
        &&& after.given_up() == self.given_up() + seqs.to_set()
        &&& after.revision() == self.revision() + (if seqs.to_set().subset_of(self.given_up()) {
            0int
        } else {
            1
        })
        &&& after.same_setup(self)
        &&& after.held() == self.held()
        &&& after.telemetry() == self.telemetry()
        &&& after.auto_started() == self.auto_started()
    }

    /// How telemetry of the encoder changes the store into `after`: what is no
    /// newer than what is known is ignored.
    pub open spec fn hears(&self, state: EncoderState, after: &DvrStore) -> bool {
        &&& after.telemetry() == (match self.telemetry() {
            Some(cur) => if cur.rev >= state.rev {
                Some(cur)
            } else {
                Some(state)
            },
            None => Some(state),
        })
        &&& after.same_setup(self)
        &&& after.held() == self.held()
        &&& after.given_up() == self.given_up()
        &&& after.revision() == self.revision()
        &&& after.auto_started() == self.auto_started()
    }

    /// Permanent gaps in the DVR window, as far as a `u32` holds their number.
    pub open spec fn gap_total(&self) -> u32 {
        match (oldest(self.held()), newest(self.held())) {
            (Some(start), Some(live)) => clamp_u32(
                gaps_between(self.held(), self.given_up(), start as int, live as int) as int,
            ),
            _ => 0,
        }
    }

    /// The contiguous settled run from a segment up to the live edge.
    pub open spec fn run_from(&self, seq: int) -> nat {
        match newest(self.held()) {
            Some(live) => settled_run(self.held(), self.given_up(), seq, live as int),
            None => 0,
        }
    }

    /// Contiguous audio held from the oldest segment on.
    pub open spec fn history_ms(&self) -> u32 {
        match oldest(self.held()) {
            Some(start) => clamp_u32(self.run_from(start as int) * self.profile_of().segment_ms),
            None => 0,
        }
    }

    /// The buffer that the encoder asks for.
    pub open spec fn auto_start_target(&self) -> Option<u32> {
        match self.telemetry() {
            Some(encoder) => encoder.auto_start_buffer_ms,
            None => None,
        }
    }

    /// The segment to start playout at, once the buffer that the encoder asked
    /// for has accumulated and has not been used for a start before.
    pub open spec fn auto_start_seq(&self) -> Option<SeqNo> {
        match self.auto_start_target() {
            Some(target) => if self.auto_started() != Some(target) && self.history_ms() >= target {
                oldest(self.held())
            } else {
                None
            },
            None => None,
        }
    }

    /// An empty store. `epoch_ms`, the wall clock in ms, is the first revision:
    /// an encoder that outlives a restart of the server must not see the
    /// revision go down. A window of 0 ms is unbounded.
    pub fn new(
        profile: StreamProfile,
        water: WaterLevels,
        dvr_window_ms: u32,
        data_dir: String,
        epoch_ms: u64,
    ) -> (store: Self)
        ensures
            store.wf(),
            store.profile_of() == profile,
            store.water_of() == water,
            store.dir() == data_dir@,
            store.revision() == epoch_ms,
            store.held() == Holdings::empty(),
            store.given_up() == Set::<SeqNo>::empty(),
            store.telemetry() is None,
            store.auto_started() is None,
            store.window() == ({
                let seg_ms = if profile.segment_ms == 0 {
                    1
                } else {
                    profile.segment_ms
                };
                if dvr_window_ms == 0 {
                    None
                } else if dvr_window_ms < seg_ms {
                    Some(1u64)
                } else {
                    Some((dvr_window_ms / seg_ms) as u64)
                }
            }),
            store.window() is None <==> dvr_window_ms == 0,
            store.window() matches Some(segs) ==> segs >= 1 && (profile.segment_ms > 0 ==> {
                &&& segs > 1 ==> segs * profile.segment_ms <= dvr_window_ms
                &&& dvr_window_ms < (segs + 1) * profile.segment_ms
            }),
    {
        let seg_ms: u32 = if profile.segment_ms == 0 {
            1
        } else {
            profile.segment_ms
        };
        let dvr_window_segs: Option<u64> = if dvr_window_ms == 0 {
            None
        } else if dvr_window_ms < seg_ms {
            Some(1)
        } else {
            Some((dvr_window_ms / seg_ms) as u64)
        };
        let store = DvrStore {
            profile,
            water,
            dvr_window_segs,
            data_dir,
            rev: epoch_ms,
            index: BTreeMap::new(),
            abandoned: BTreeSet::new(),
            encoder_state: None,
            auto_start_fired: None,
        };
        proof {
            let w = dvr_window_ms as int;
            let g = seg_ms as int;
            assert(w / g * g <= w && w < (w / g + 1) * g) by (nonlinear_arith)
                requires
                    g > 0,
                    w >= 0,
            ;
            if w >= g {
                assert(w / g >= 1) by (nonlinear_arith)
                    requires
                        w >= g,
                        g > 0,
                ;
            }
        }
        assert(store.held() =~= Holdings::empty());
        store
    }

    /// Where the file of a segment is.
    pub fn segment_path(&self, rung: RungId, seq: SeqNo) -> (path: String)
        ensures
            path@ == segment_file(self.dir(), rung, seq),
    {
        let mut path = self.data_dir.clone();
        let len: usize = path.as_str().unicode_len();
        if len > 0 && path.as_str().get_char(len - 1) != '/' {
            path.append("/");
        }
        assert(path@ =~= dir_prefix(self.dir()));
        push_decimal(&mut path, rung as u64);
        path.append("/");
        push_decimal(&mut path, seq);
        path.append(".ts");
        path
    }

    /// Directory of the stream's files.
    pub fn data_dir(&self) -> (dir: &str)
        ensures
            dir@ == self.dir(),
    {
        self.data_dir.as_str()
    }

    pub fn profile(&self) -> (profile: &StreamProfile)
        ensures
            *profile == self.profile_of(),
    {
        &self.profile
    }

    /// The revision, which grows with every change.
    pub fn rev(&self) -> (rev: u64)
        ensures
            rev == self.revision(),
    {
        self.rev
    }

    /// The segments on disk at any rung, ascending.
    pub fn playable_seqs(&self) -> (seqs: Vec<SeqNo>)
        ensures
            sorted::ascending(seqs@),
            forall|s: SeqNo| seqs@.contains(s) <==> #[trigger] self.held().contains_key(s),
    {
        sorted_keys(&self.index)
    }

    /// The segment is on disk at that rung.
    pub fn has_rung(&self, seq: SeqNo, rung: RungId) -> (b: bool)
        ensures
            b == (self.held().contains_key(seq) && self.held()[seq].contains(rung)),
    {
        match self.index.get(&seq) {
            Some(rungs) => rungs.contains(&rung),
            None => false,
        }
    }

    /// The segment is on disk at some rung.
    pub fn has_media(&self, seq: SeqNo) -> (b: bool)
        ensures
            b == self.held().contains_key(seq),
    {
        self.index.contains_key(&seq)
    }

    /// Playout need not wait for the segment: it is on disk, or given up.
    pub fn has_any(&self, seq: SeqNo) -> (b: bool)
        ensures
            b == settled(self.held(), self.given_up(), seq as int),
    {
        self.index.contains_key(&seq) || self.abandoned.contains(&seq)
    }

    /// The encoder has given up on the segment.
    pub fn is_abandoned(&self, seq: SeqNo) -> (b: bool)
        ensures
            b == self.given_up().contains(seq),
    {
        self.abandoned.contains(&seq)
    }

    /// The newest segment on disk.
    pub fn live_seq(&self) -> (live: Option<SeqNo>)
        ensures
            live == newest(self.held()),
            live matches Some(s) ==> is_newest(self.held(), s),
            live is None ==> self.held() =~= Holdings::empty(),
    {
        let seqs = self.playable_seqs();
        if seqs.len() == 0 {
            assert forall|s: SeqNo| !self.held().contains_key(s) by {
                assert(!seqs@.contains(s));
            }
            None
        } else {
            let live: SeqNo = seqs[seqs.len() - 1];
            assert(is_newest(self.held(), live)) by {
                assert(seqs@.contains(live));
                assert forall|s: SeqNo| #[trigger] self.held().contains_key(s) implies s
                    <= live by {
                    assert(seqs@.contains(s));
                }
            }
            proof {
                lemma_newest_is(self.held(), live);
            }
            Some(live)
        }
    }

    /// The oldest segment on disk.
    pub fn dvr_start_seq(&self) -> (start: Option<SeqNo>)
        ensures
            start == oldest(self.held()),
            start matches Some(s) ==> is_oldest(self.held(), s),
            start is None ==> self.held() =~= Holdings::empty(),
    {
        let seqs = self.playable_seqs();
        if seqs.len() == 0 {
            assert forall|s: SeqNo| !self.held().contains_key(s) by {
                assert(!seqs@.contains(s));
            }
            None
        } else {
            let start: SeqNo = seqs[0];
            assert(is_oldest(self.held(), start)) by {
                assert(seqs@.contains(start));
                assert forall|s: SeqNo| #[trigger] self.held().contains_key(s) implies start
                    <= s by {
                    assert(seqs@.contains(s));
                }
            }
            proof {
                lemma_oldest_is(self.held(), start);
            }
            Some(start)
        }
    }

    /// The best rung on disk of a segment.
    pub fn best_rung(&self, seq: SeqNo) -> (best: Option<RungId>)
        requires
            self.wf(),
        ensures
            is_best_or_none(self.held(), seq, best),
    {
        match self.index.get(&seq) {
            Some(rungs) => {
                let members = sorted_members(rungs);
                assert(self.held().contains_key(seq));
                let ghost some = choose|r: RungId| self.held()[seq].contains(r);
                assert(members@.contains(some));
                let best: RungId = members[members.len() - 1];
                assert(members@.contains(best));
                assert forall|r: RungId| #[trigger] self.held()[seq].contains(r) implies r
                    <= best by {
                    assert(members@.contains(r));
                }
                Some(best)
            },
            None => None,
        }
    }

    /// Latest encoder telemetry.
    pub fn encoder_state(&self) -> (state: Option<&EncoderState>)
        ensures
            state is Some <==> self.telemetry() is Some,
            state matches Some(s) ==> *s == self.telemetry()->0,
    {
        self.encoder_state.as_ref()
    }

    /// Takes encoder telemetry, unless a snapshot at least as new is known.
    pub fn set_encoder_state(&mut self, state: EncoderState)
        ensures
            old(self).hears(state, final(self)),
    {
        let stale = match &self.encoder_state {
            Some(cur) => cur.rev >= state.rev,
            None => false,
        };
        if !stale {
            self.encoder_state = Some(state);
        }
    }

    /// Marks segments as given up, so that playout skips them.
    pub fn abandon(&mut self, seqs: &[SeqNo])
        requires
            !seqs@.to_set().subset_of(old(self).given_up()) ==> old(self).revision() < u64::MAX,
        ensures
            old(self).gives_up(seqs@, final(self)),
    {
        let mut changed = false;
        let mut i: usize = 0;
        while i < seqs.len()
            invariant
                i <= seqs@.len(),
                forall|s: SeqNo| #[trigger]
                    self.abandoned@.contains(s) <==> old(self).abandoned@.contains(s)
                        || seqs@.take(i as int).contains(s),
                changed <==> exists|j: int|
                    0 <= j < i && !old(self).abandoned@.contains(#[trigger] seqs@[j]),
                self.rev == old(self).rev,
                self.profile == old(self).profile,
                self.water == old(self).water,
                self.dvr_window_segs == old(self).dvr_window_segs,
                self.data_dir == old(self).data_dir,
                self.index == old(self).index,
                self.encoder_state == old(self).encoder_state,
                self.auto_start_fired == old(self).auto_start_fired,
            decreases seqs@.len() - i,
        {
            let ghost before = self.abandoned@;
            let added = self.abandoned.insert(seqs[i]);
            proof {
                let head = seqs@.take(i as int);
                let next = seqs@.take(i + 1);
                assert(next =~= head.push(seqs@[i as int]));
                assert forall|s: SeqNo| next.contains(s) <==> head.contains(s) || s
                    == seqs@[i as int] by {
                    if head.contains(s) {
                        let k = choose|k: int| 0 <= k < head.len() && head[k] == s;
                        assert(next[k] == s);
                    }
                    if s == seqs@[i as int] {
                        assert(next[i as int] == s);
                    }
                }
                if added {
                    assert(!old(self).abandoned@.contains(seqs@[i as int]));
                } else if !old(self).abandoned@.contains(seqs@[i as int]) {
                    assert(head.contains(seqs@[i as int]));
                    let k = choose|k: int| 0 <= k < head.len() && head[k] == seqs@[i as int];
                    assert(!old(self).abandoned@.contains(seqs@[k]));
                }
            }
            if added {
                changed = true;
            }
            i = i + 1;
        }
        assert(seqs@.take(i as int) =~= seqs@);
        assert(self.abandoned@ =~= old(self).abandoned@ + seqs@.to_set());
        proof {
            if seqs@.to_set().subset_of(old(self).given_up()) {
                if changed {
                    let j = choose|j: int|
                        0 <= j < i && !old(self).abandoned@.contains(#[trigger] seqs@[j]);
                    assert(seqs@.to_set().contains(seqs@[j]));
                }
            } else {
                let s = choose|s: SeqNo|
                    seqs@.to_set().contains(s) && !old(self).given_up().contains(s);
                let j = choose|j: int| 0 <= j < seqs@.len() && seqs@[j] == s;
                assert(!old(self).abandoned@.contains(seqs@[j]));
            }
        }
        if changed {
            self.rev = self.rev + 1;
        }
    }

    /// Removes what has left the window, and appends the files to reap.
    fn evict_old(&mut self, playout_pos: Option<SeqNo>, reaped: &mut Vec<String>)
        requires
            old(self).wf(),
            old(reaped)@.len() == 0,
        ensures
            final(self).same_setup(old(self)),
            final(self).revision() == old(self).revision(),
            final(self).telemetry() == old(self).telemetry(),
            final(self).auto_started() == old(self).auto_started(),
            ({
                let floor = window_floor(old(self).held(), old(self).window(), playout_pos);
                &&& is_trimmed(old(self).held(), final(self).held(), floor)
                &&& forall|s: SeqNo| #[trigger]
                    final(self).given_up().contains(s) <==> old(self).given_up().contains(s) && !(
                    old(self).held().contains_key(s) && s < floor)
                &&& exists|pairs: Seq<(SeqNo, RungId)>|
                    {
                        &&& #[trigger] lists_below(pairs, old(self).held(), floor)
                        &&& names_files(final(reaped)@, old(self).dir(), pairs)
                    }
            }),
    {
        let ghost held0 = self.held();
        let ghost ab0 = self.abandoned@;
        let ghost mut pairs: Seq<(SeqNo, RungId)> = Seq::empty();
        let live = self.live_seq();
        let mut floor: SeqNo = 0;
        if let (Some(live), Some(segs)) = (live, self.dvr_window_segs) {
            floor = live.saturating_sub(segs);
            if let Some(pos) = playout_pos {
                if pos < floor {
                    floor = pos;
                }
            }
        }
        assert(floor == window_floor(held0, self.window(), playout_pos));
        let seqs = self.playable_seqs();
        let mut i: usize = 0;
        while i < seqs.len() && seqs[i] < floor
            invariant
                i <= seqs@.len(),
                sorted::ascending(seqs@),
                forall|s: SeqNo| seqs@.contains(s) <==> #[trigger] held0.contains_key(s),
                forall|j: int| 0 <= j < i ==> seqs@[j] < floor,
                held0 == old(self).held(),
                ab0 == old(self).abandoned@,
                old(self).wf(),
                forall|s: SeqNo| #[trigger]
                    self.held().contains_key(s) <==> held0.contains_key(s) && !seqs@.take(
                        i as int,
                    ).contains(s),
                forall|s: SeqNo| #[trigger]
                    self.held().contains_key(s) ==> self.held()[s] == held0[s],
                forall|s: SeqNo| #[trigger]
                    self.abandoned@.contains(s) <==> ab0.contains(s) && !seqs@.take(
                        i as int,
                    ).contains(s),
                self.rev == old(self).rev,
                self.profile == old(self).profile,
                self.water == old(self).water,
                self.dvr_window_segs == old(self).dvr_window_segs,
                self.data_dir == old(self).data_dir,
                self.encoder_state == old(self).encoder_state,
                self.auto_start_fired == old(self).auto_start_fired,
                names_files(reaped@, self.data_dir@, pairs),
                i < seqs@.len() ==> lists_below(pairs, held0, seqs@[i as int] as int),
                i == seqs@.len() ==> lists_below(pairs, held0, u64::MAX + 1),
            decreases seqs@.len() - i,
        {
            let seq: SeqNo = seqs[i];
            let ghost head = seqs@.take(i as int);
            let ghost before = self.held();
            proof {
                assert(seqs@.contains(seq));
                assert(!head.contains(seq)) by {
                    if head.contains(seq) {
                        let k = choose|k: int| 0 <= k < head.len() && head[k] == seq;
                        assert(seqs@[k] < seqs@[i as int]);
                    }
                }
                assert(before.contains_key(seq));
            }
            if let Some(rungs) = self.index.remove(&seq) {
                let members = sorted_members(&rungs);
                assert(rungs@ == held0[seq]);
                assert(self.held() =~= before.remove(seq));
                let mut k: usize = 0;
                let ghost earlier = pairs;
                while k < members.len()
                    invariant
                        k <= members@.len(),
                        sorted::ascending(members@),
                        self.data_dir == old(self).data_dir,
                        names_files(reaped@, self.data_dir@, pairs),
                        pairs == earlier + Seq::new(
                            k as nat,
                            |t: int| (seq, members@[t]),
                        ),
                    decreases members@.len() - k,
                {
                    let path = self.segment_path(members[k], seq);
                    reaped.push(path);
                    proof {
                        let next = pairs.push((seq, members@[k as int]));
                        assert(next =~= earlier + Seq::new(
                            (k + 1) as nat,
                            |t: int| (seq, members@[t]),
                        ));
                        pairs = next;
                    }
                    k = k + 1;
                }
                proof {
                    let upto = if i + 1 < seqs@.len() {
                        seqs@[i + 1] as int
                    } else {
                        u64::MAX + 1
                    };
                    lemma_lists_next(earlier, pairs, held0, seqs@, i as int, members@, upto);
                }
            }
            self.abandoned.remove(&seq);
            proof {
                let next = seqs@.take(i + 1);
                assert(next =~= head.push(seq));
                assert forall|s: SeqNo| next.contains(s) <==> head.contains(s) || s == seq by {
                    if head.contains(s) {
                        let k = choose|k: int| 0 <= k < head.len() && head[k] == s;
                        assert(next[k] == s);
                    }
                    if s == seq {
                        assert(next[i as int] == s);
                    }
                }
            }
            i = i + 1;
        }
        proof {
            let head = seqs@.take(i as int);
            assert forall|s: SeqNo| held0.contains_key(s) implies (head.contains(s) <==> s
                < floor) by {
                assert(seqs@.contains(s));
                let t = choose|t: int| 0 <= t < seqs@.len() && seqs@[t] == s;
                if t < i {
                    assert(head[t] == s);
                } else if head.contains(s) {
                    let k = choose|k: int| 0 <= k < head.len() && head[k] == s;
                    assert(seqs@[k] < seqs@[t]);
                }
            }
            assert forall|s: SeqNo| #[trigger]
                self.abandoned@.contains(s) <==> ab0.contains(s) && !(held0.contains_key(s) && s
                    < floor) by {
                if head.contains(s) {
                    let k = choose|k: int| 0 <= k < head.len() && head[k] == s;
                    assert(seqs@[k] == s);
                    assert(seqs@.contains(s));
                }
            }
            assert(lists_below(pairs, held0, floor as int)) by {
                let upto = if i < seqs@.len() {
                    seqs@[i as int] as int
                } else {
                    u64::MAX + 1
                };
                assert forall|s: SeqNo| #[trigger] held0.contains_key(s) implies (s < upto <==> s
                    < floor) by {
                    assert(seqs@.contains(s));
                    let t = choose|t: int| 0 <= t < seqs@.len() && seqs@[t] == s;
                    if i < seqs@.len() && t > i {
                        assert(seqs@[i as int] < seqs@[t]);
                    }
                    if t < i && i < seqs@.len() {
                        assert(seqs@[t] < seqs@[i as int]);
                    }
                }
            }
        }
    }

    /// Takes note that a segment is on disk at a rung, and returns the files
    /// that have left the window. Noting the same pair again changes nothing.
    pub fn record(
        &mut self,
        rung: RungId,
        seq: SeqNo,
        playout_pos: Option<SeqNo>,
    ) -> (reaped: Vec<String>)
        requires
            old(self).wf(),
            !old(self).holds(rung, seq) ==> old(self).revision() < u64::MAX,
        ensures
            final(self).wf(),
            exists|pairs: Seq<(SeqNo, RungId)>|
                {
                    &&& #[trigger] old(self).records(rung, seq, playout_pos, pairs, final(self))
                    &&& names_files(reaped@, old(self).dir(), pairs)
                },
    {
        let mut reaped: Vec<String> = Vec::new();
        if self.has_rung(seq, rung) {
            assert(old(self).records(rung, seq, playout_pos, Seq::empty(), self));
            return reaped;
        }
        let ghost held0 = self.held();
        let mut rungs: BTreeSet<RungId> = match self.index.remove(&seq) {
            Some(rungs) => rungs,
            None => BTreeSet::new(),
        };
        rungs.insert(rung);
        let ghost rungs_view = rungs@;
        self.index.insert(seq, rungs);
        self.rev = self.rev + 1;
        assert(self.held() =~= with_rung(held0, rung, seq));
        assert(self.wf()) by {
            assert forall|s: SeqNo| #[trigger] self.held().contains_key(s) implies exists|r: RungId|
                self.held()[s].contains(r) by {
                if s == seq {
                    assert(self.held()[s].contains(rung));
                } else {
                    assert(held0.contains_key(s));
                    let r = choose|r: RungId| held0[s].contains(r);
                    assert(self.held()[s].contains(r));
                }
            }
        }
        let ghost added = self.held();
        self.evict_old(playout_pos, &mut reaped);
        assert(self.wf()) by {
            assert forall|s: SeqNo| #[trigger] self.held().contains_key(s) implies exists|r: RungId|
                self.held()[s].contains(r) by {
                assert(added.contains_key(s));
                let r = choose|r: RungId| added[s].contains(r);
                assert(self.held()[s].contains(r));
            }
        }
        proof {
            let floor = window_floor(added, old(self).window(), playout_pos);
            let pairs = choose|pairs: Seq<(SeqNo, RungId)>|
                {
                    &&& #[trigger] lists_below(pairs, added, floor)
                    &&& names_files(reaped@, old(self).dir(), pairs)
                };
            assert(old(self).records(rung, seq, playout_pos, pairs, self));
        }
        reaped
    }

    /// Length of the contiguous settled run from a segment up to `live`.
    fn count_settled(&self, start: SeqNo, live: SeqNo) -> (count: u128)
        ensures
            count == settled_run(self.held(), self.given_up(), start as int, live as int),
            count > 0 ==> start + count - 1 <= live,
    {
        let mut count: u128 = 0;
        let mut seq: SeqNo = start;
        while seq <= live && self.has_any(seq)
            invariant
                start <= seq,
                count == seq - start,
                count > 0 ==> seq <= live,
                count + settled_run(self.held(), self.given_up(), seq as int, live as int)
                    == settled_run(self.held(), self.given_up(), start as int, live as int),
            decreases live + 1 - seq,
        {
            count = count + 1;
            if seq == live {
                assert(settled_run(self.held(), self.given_up(), seq + 1, live as int) == 0);
                return count;
            }
            seq = seq + 1;
        }
        count
    }

    /// Length of so many segments, within what a `u32` holds.
    fn segments_ms(&self, count: u128) -> (ms: u32)
        requires
            count <= 0x1_0000_0000_0000_0000,
        ensures
            ms == clamp_u32(count * self.profile_of().segment_ms),
    {
        proof {
            let a = count as int;
            let b = self.profile.segment_ms as int;
            assert(0 <= a * b <= 0x1_0000_0000_0000_0000 * 0xffff_ffff) by (nonlinear_arith)
                requires
                    0 <= a <= 0x1_0000_0000_0000_0000,
                    0 <= b <= 0xffff_ffff,
            ;
        }
        let ms: u128 = count * self.profile.segment_ms as u128;
        if ms > u32::MAX as u128 {
            u32::MAX
        } else {
            ms as u32
        }
    }

    /// Contiguous audio held from the oldest segment on, up to the first gap.
    pub fn buffered_ms(&self) -> (ms: u32)
        requires
            self.wf(),
        ensures
            ms == self.history_ms(),
    {
        match (self.dvr_start_seq(), self.live_seq()) {
            (Some(start), Some(live)) => {
                let count: u128 = self.count_settled(start, live);
                self.segments_ms(count)
            },
            _ => {
                assert(forall|s: SeqNo| !is_oldest(self.held(), s));
                0
            },
        }
    }

    /// Counts the permanent gaps in the DVR window: segments that were given up
    /// and have not come.
    pub fn permanent_gaps(&self) -> (gaps: u32)
        requires
            self.wf(),
        ensures
            gaps == self.gap_total(),
    {
        let (start, live): (SeqNo, SeqNo) = match (self.dvr_start_seq(), self.live_seq()) {
            (Some(start), Some(live)) => (start, live),
            _ => {
                return 0;
            },
        };
        let mut gaps: u128 = 0;
        let mut seq: SeqNo = start;
        while seq <= live
            invariant_except_break
                start <= seq <= live,
                gaps <= seq - start,
                gaps + gaps_between(self.held(), self.given_up(), seq as int, live as int)
                    == gaps_between(self.held(), self.given_up(), start as int, live as int),
            ensures
                gaps == gaps_between(self.held(), self.given_up(), start as int, live as int),
            decreases live + 1 - seq,
        {
            if self.is_abandoned(seq) && !self.has_media(seq) {
                gaps = gaps + 1;
            }
            if seq == live {
                assert(gaps_between(self.held(), self.given_up(), seq + 1, live as int) == 0);
                break;
            }
            seq = seq + 1;
        }
        if gaps > u32::MAX as u128 {
            u32::MAX
        } else {
            gaps as u32
        }
    }

    /// The segment to start playout at, once the buffer that the encoder asked
    /// for has accumulated and has not been used for a start before.
    pub fn due_for_auto_start(&self) -> (start: Option<SeqNo>)
        requires
            self.wf(),
        ensures
            start == self.auto_start_seq(),
    {
        let target: u32 = match &self.encoder_state {
            Some(encoder) => match encoder.auto_start_buffer_ms {
                Some(target) => target,
                None => {
                    return None;
                },
            },
            None => {
                return None;
            },
        };
        if let Some(fired) = self.auto_start_fired {
            if fired == target {
                return None;
            }
        }
        if self.buffered_ms() >= target {
            self.dvr_start_seq()
        } else {
            None
        }
    }

    /// Takes note that playout has been started for a buffer request.
    pub fn mark_auto_start_fired(&mut self, target_ms: u32)
        ensures
            final(self).auto_started() == Some(target_ms),
            final(self).same_setup(old(self)),
            final(self).held() == old(self).held(),
            final(self).given_up() == old(self).given_up(),
            final(self).revision() == old(self).revision(),
            final(self).telemetry() == old(self).telemetry(),
    {
        self.auto_start_fired = Some(target_ms);
    }

    /// Best rung per segment from `start` to `end`.
    fn coverage(&self, start: SeqNo, end: SeqNo) -> (coverage: Vec<SegCoverage>)
        requires
            self.wf(),
        ensures
            self.is_coverage(coverage@, start as int, end as int),
    {
        let mut coverage: Vec<SegCoverage> = Vec::new();
        let mut seq: SeqNo = start;
        while seq <= end
            invariant
                self.wf(),
                start <= seq,
                seq <= end || seq == start,
                coverage@.len() == seq - start,
                forall|i: int|
                    0 <= i < coverage@.len() ==> (#[trigger] coverage@[i]).seq == start + i
                        && is_best_or_none(
                        self.held(),
                        coverage@[i].seq,
                        coverage@[i].best_rung,
                    ),
            decreases end + 1 - seq,
        {
            coverage.push(SegCoverage { seq, best_rung: self.best_rung(seq) });
            if seq == end {
                return coverage;
            }
            seq = seq + 1;
        }
        coverage
    }

    /// `coverage` gives the best rung of each segment from `start` to `end`.
    pub open spec fn is_coverage(&self, coverage: Seq<SegCoverage>, start: int, end: int) -> bool {
        &&& coverage.len() == (if start <= end {
            end - start + 1
        } else {
            0
        })
        &&& forall|i: int|
            0 <= i < coverage.len() ==> (#[trigger] coverage[i]).seq == start + i
                && is_best_or_none(self.held(), coverage[i].seq, coverage[i].best_rung)
    }

    /// `state` is what the encoder is told of the store, given the playout status.
    pub open spec fn tells(&self, playout: PlayoutStatus, state: ServerState) -> bool {
        &&& state.rev == self.revision()
        &&& state.live_seq == newest(self.held())
        &&& state.dvr_start_seq == oldest(self.held())
        &&& state.playout == playout
        &&& state.water == self.water_of()
        &&& state.buffered_ms == self.history_ms()
        &&& match state_anchor(playout, newest(self.held())) {
            Some(anchor) => {
                let run = self.run_from(anchor as int);
                &&& state.frontier_seq == (if run > 0 {
                    Some((anchor + run - 1) as u64)
                } else {
                    None
                })
                &&& state.lead_ms == clamp_u32(run * self.profile_of().segment_ms)
            },
            None => state.frontier_seq is None && state.lead_ms == 0,
        }
        &&& match (state_anchor(playout, newest(self.held())), newest(self.held())) {
            (Some(anchor), Some(live)) => self.is_coverage(
                state.coverage@,
                anchor as int,
                if anchor + COVERAGE_WINDOW_SEGS < live {
                    anchor + COVERAGE_WINDOW_SEGS
                } else {
                    live as int
                },
            ),
            _ => state.coverage@.len() == 0,
        }
    }

    /// What the encoder is told, given the playout status.
    pub fn build_server_state(&self, playout: PlayoutStatus) -> (state: ServerState)
        requires
            self.wf(),
        ensures
            self.tells(playout, state),
            !state.stale_session,
    {
        let live_seq = self.live_seq();
        let active = match playout.state {
            PlayoutState::Playing | PlayoutState::Paused | PlayoutState::Stalled => true,
            PlayoutState::Stopped | PlayoutState::Error => false,
        };
        let anchor: Option<SeqNo> = if active && playout.position_seq.is_some() {
            playout.position_seq
        } else {
            live_seq
        };
        let mut frontier_seq: Option<SeqNo> = None;
        let mut lead_ms: u32 = 0;
        let mut coverage: Vec<SegCoverage> = Vec::new();
        if let (Some(start), Some(live)) = (anchor, live_seq) {
            let run: u128 = self.count_settled(start, live);
            if run > 0 {
                frontier_seq = Some(start + (run - 1) as u64);
            }
            lead_ms = self.segments_ms(run);
            let reach: u64 = start.saturating_add(COVERAGE_WINDOW_SEGS);
            coverage = self.coverage(
                start,
                if reach < live {
                    reach
                } else {
                    live
                },
            );
        }
        ServerState {
            rev: self.rev,
            live_seq,
            dvr_start_seq: self.dvr_start_seq(),
            playout,
            frontier_seq,
            lead_ms,
            water: self.water,
            coverage,
            buffered_ms: self.buffered_ms(),
            stale_session: false,
        }
    }
}

/// The names of the files of so many segments.
pub open spec fn names_files(
    names: Seq<String>,
    dir: Seq<char>,
    pairs: Seq<(SeqNo, RungId)>,
) -> bool {
    &&& names.len() == pairs.len()
    &&& forall|i: int|
        0 <= i < names.len() ==> (#[trigger] names[i])@ == segment_file(dir, pairs[i].1, pairs[i].0)
}

/// A list of what is below one segment becomes one of what is below the next
/// by appending the segment's rungs.
proof fn lemma_lists_next(
    earlier: Seq<(SeqNo, RungId)>,
    pairs: Seq<(SeqNo, RungId)>,
    held: Holdings,
    seqs: Seq<SeqNo>,
    i: int,
    members: Seq<RungId>,
    upto: int,
)
    requires
        0 <= i < seqs.len(),
        sorted::ascending(seqs),
        forall|s: SeqNo| seqs.contains(s) <==> #[trigger] held.contains_key(s),
        sorted::ascending(members),
        forall|r: RungId| members.contains(r) <==> #[trigger] held[seqs[i]].contains(r),
        lists_below(earlier, held, seqs[i] as int),
        pairs == earlier + Seq::new(members.len(), |t: int| (seqs[i], members[t])),
        upto == (if i + 1 < seqs.len() {
            seqs[i + 1] as int
        } else {
            u64::MAX + 1
        }),
    ensures
        lists_below(pairs, held, upto),
{
    let n = earlier.len() as int;
    assert(seqs.contains(seqs[i]));
    assert forall|a: int, b: int| 0 <= a < b < pairs.len() implies {
        ||| (#[trigger] pairs[a]).0 < (#[trigger] pairs[b]).0
        ||| pairs[a].0 == pairs[b].0 && pairs[a].1 < pairs[b].1
    } by {
        if b < n {
            assert(pairs[a] == earlier[a] && pairs[b] == earlier[b]);
        } else if a < n {
            assert(pairs[a] == earlier[a]);
            assert(earlier.contains((earlier[a].0, earlier[a].1)));
        } else {
            assert(members[a - n] < members[b - n]);
        }
    }
    assert forall|s: SeqNo, r: RungId| #[trigger]
        pairs.contains((s, r)) <==> s < upto && held.contains_key(s) && held[s].contains(r) by {
        if pairs.contains((s, r)) {
            let k = choose|k: int| 0 <= k < pairs.len() && pairs[k] == (s, r);
            if k < n {
                assert(earlier[k] == (s, r));
                assert(earlier.contains((s, r)));
                if i + 1 < seqs.len() {
                    assert(seqs[i] < seqs[i + 1]);
                }
            } else {
                assert(members[k - n] == r);
                assert(members.contains(r));
                if i + 1 < seqs.len() {
                    assert(seqs[i] < seqs[i + 1]);
                }
            }
        }
        if s < upto && held.contains_key(s) && held[s].contains(r) {
            assert(seqs.contains(s));
            let t = choose|t: int| 0 <= t < seqs.len() && seqs[t] == s;
            if t > i + 1 {
                assert(seqs[i + 1] < seqs[t]);
            }
            if t < i {
                assert(seqs[t] < seqs[i]);
                assert(earlier.contains((s, r)));
                let k = choose|k: int| 0 <= k < earlier.len() && earlier[k] == (s, r);
                assert(pairs[k] == (s, r));
            } else {
                assert(t == i);
                assert(members.contains(r));
                let k = choose|k: int| 0 <= k < members.len() && members[k] == r;
                assert(pairs[n + k] == (s, r));
            }
        }
    }
}

} // verus!
