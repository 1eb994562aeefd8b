//! The uploader: what the encoder does in each tick, and what it remembers
//! between ticks.

use std::collections::{BTreeMap, BTreeSet};
use vstd::prelude::*;

use crate::encode::rung_dir;
use crate::inventory::{self, ScanResult};
use crate::scheduler::{self, LocalInventory, SchedulerInput, UploadAction, plan_uploads};
use crate::sorted::{sorted_keys, sorted_seqs};
use crate::state::{EncoderState, RungId, SegCoverage, SeqNo, ServerState, StreamProfile};
use crate::text::{self, push_decimal};
use crate::{sorted, store};

verus! {

broadcast use vstd::std_specs::btree::group_btree_axioms;

/// Where and what to upload.
#[derive(Clone, Debug, PartialEq, Eq)]
pub struct Config {
    pub base_url: String,
    pub stream: String,
    pub ingest_token: Option<String>,
    pub out_dir: String,
    pub profile: StreamProfile,
    /// Buffer at which the server is asked to start playout on its own.
    pub auto_start_buffer_ms: Option<u32>,
    /// The operator's default quality.
    pub bootstrap_rung: RungId,
}

/// How long a gap that nothing can fill must last before it is given up.
pub const ABANDON_AFTER_MS: u64 = 20_000;

/// How often telemetry is sent.
pub const HEARTBEAT_INTERVAL_MS: u64 = 1_000;

/// How often uploads are planned.
pub const TICK_MS: u64 = 500;

/// Share of the measured throughput that is planned with, in thousandths.
pub const HEADROOM_PERMILLE: u32 = 900;

/// Most uploads in one tick.
pub const MAX_ACTIONS: usize = 16;

/// The number of the session's first segment on the server: the next one, or 0
/// where the stream is stale or new.
pub open spec fn seq_offset_for(server: ServerState) -> SeqNo {
    if server.stale_session {
        0
    } else {
        match server.live_seq {
            Some(live) => (live + 1) as u64,
            None => 0,
        }
    }
}

/// The number of the session's first segment on the server.
pub fn resolve_seq_offset(server: &ServerState) -> (offset: SeqNo)
    requires
        server.live_seq matches Some(live) ==> live < u64::MAX,
    ensures
        offset == seq_offset_for(*server),
{
    if server.stale_session {
        0
    } else {
        match server.live_seq {
            Some(live) => live + 1,
            None => 0,
        }
    }
}

/// What the uploader remembers between ticks.
pub struct UploadSession {
    rungs: Vec<RungId>,
    low: RungId,
    preferred: RungId,
    throughput_kbps: u32,
    /// The gap under countdown, and since when.
    stalled: Option<(SeqNo, u64)>,
    /// Segments that this session has given up.
    abandoned: BTreeSet<SeqNo>,
    heartbeat_rev: u64,
    last_heartbeat_ms: Option<u64>,
    /// A segment of this session has arrived.
    started: bool,
    seq_offset: SeqNo,
}

/// What the uploader remembers, as plain values.
pub ghost struct Session {
    pub rungs: Seq<RungId>,
    pub low: RungId,
    pub preferred: RungId,
    pub throughput_kbps: u32,
    pub stalled: Option<(SeqNo, u64)>,
    pub abandoned: Set<SeqNo>,
    pub heartbeat_rev: u64,
    pub last_heartbeat_ms: Option<u64>,
    pub started: bool,
    pub seq_offset: SeqNo,
}

impl View for UploadSession {
    type V = Session;

    closed spec fn view(&self) -> Session {
        Session {
            rungs: self.rungs@,
            low: self.low,
            preferred: self.preferred,
            throughput_kbps: self.throughput_kbps,
            stalled: self.stalled,
            abandoned: self.abandoned@,
            heartbeat_rev: self.heartbeat_rev,
            last_heartbeat_ms: self.last_heartbeat_ms,
            started: self.started,
            seq_offset: self.seq_offset,
        }
    }
}

impl Session {
    /// As a tick begins: until a segment of the session has arrived, its numbering
    /// follows the server's; after that it stays.
    pub open spec fn begun(self, server: ServerState) -> Session {
        if self.started {
            self
        } else {
            Session { seq_offset: seq_offset_for(server), ..self }
        }
    }

    /// After a look at the gap, if any, that nothing can fill.
    pub open spec fn after_gap(self, gap: Option<SeqNo>, now_ms: u64) -> Session {
        Session {
            stalled: match gap {
                Some(seq) => match self.stalled {
                    Some((s, since)) => if s == seq {
                        Some((s, since))
                    } else {
                        Some((seq, now_ms))
                    },
                    None => Some((seq, now_ms)),
                },
                None => None,
            },
            ..self
        }
    }

    /// The gap that it is time to give up.
    pub open spec fn gives_up(self, gap: Option<SeqNo>, now_ms: u64) -> Option<SeqNo> {
        match gap {
            Some(seq) => if self.stalled matches Some((s, since)) && s == seq && now_ms - since
                >= ABANDON_AFTER_MS {
                Some(seq)
            } else {
                None
            },
            None => None,
        }
    }

    /// After a segment was given up.
    pub open spec fn after_giving_up(self, seq: SeqNo) -> Session {
        Session { abandoned: self.abandoned.insert(seq), stalled: None, ..self }
    }

    /// It is time to send telemetry.
    pub open spec fn heartbeat_due(self, now_ms: u64) -> bool {
        !(self.last_heartbeat_ms matches Some(at) && now_ms - at < HEARTBEAT_INTERVAL_MS)
    }

    /// After telemetry was sent.
    pub open spec fn after_heartbeat(self, now_ms: u64) -> Session {
        Session {
            heartbeat_rev: (self.heartbeat_rev + 1) as u64,
            last_heartbeat_ms: Some(now_ms),
            ..self
        }
    }

    /// The local file of an upload, which has its local number.
    pub open spec fn file_of(self, out_dir: Seq<char>, action: UploadAction) -> Seq<char> {
        store::segment_file(out_dir, action.rung, (action.seq - self.seq_offset) as u64)
    }

    /// After a segment arrived at the server.
    pub open spec fn after_upload(self, bytes: u64, elapsed_us: u64) -> Session {
        Session { started: true, throughput_kbps: kbps_of(bytes, elapsed_us), ..self }
    }
}

/// The ids of a ladder.
pub open spec fn ids_of(profile: StreamProfile) -> Seq<RungId> {
    Seq::new(profile.rungs@.len(), |i: int| profile.rungs@[i].id)
}

/// A session that has uploaded nothing yet.
pub open spec fn fresh_session(profile: StreamProfile, bootstrap_rung: RungId) -> Session {
    Session {
        rungs: ids_of(profile),
        low: profile.spec_low_rung(),
        preferred: profile.spec_nearest(bootstrap_rung),
        throughput_kbps: store::clamp_u32(
            profile.spec_bitrate_of(profile.spec_nearest(bootstrap_rung)) * 4,
        ),
        stalled: None,
        abandoned: Set::empty(),
        heartbeat_rev: 0,
        last_heartbeat_ms: None,
        started: false,
        seq_offset: 0,
    }
}

/// Best rungs that the first `n` entries of a coverage report.
pub open spec fn reported_best(coverage: Seq<SegCoverage>, n: int) -> Map<SeqNo, Option<RungId>>
    decreases n,
{
    if n <= 0 {
        Map::empty()
    } else {
        reported_best(coverage, n - 1).insert(coverage[n - 1].seq, coverage[n - 1].best_rung)
    }
}

/// `best` is what the server reports, but for the segments given up, which count
/// as held.
pub open spec fn is_overlaid(
    best: Map<SeqNo, Option<RungId>>,
    reported: Map<SeqNo, Option<RungId>>,
    given_up: Set<SeqNo>,
    low: RungId,
) -> bool {
    &&& forall|s: SeqNo| #[trigger]
        best.contains_key(s) <==> reported.contains_key(s) || given_up.contains(s)
    &&& forall|s: SeqNo| #[trigger]
        best.contains_key(s) ==> best[s] == (if given_up.contains(s) {
            Some(low)
        } else {
            reported[s]
        })
}

/// `shifted` is `local` with every segment number raised by `offset`.
pub open spec fn is_shifted(
    shifted: Map<SeqNo, Vec<RungId>>,
    local: Map<SeqNo, Vec<RungId>>,
    offset: SeqNo,
) -> bool {
    &&& forall|s: SeqNo| #[trigger]
        shifted.contains_key(s) <==> s >= offset && local.contains_key((s - offset) as u64)
    &&& forall|s: SeqNo| #[trigger]
        shifted.contains_key(s) ==> shifted[s] == local[(s - offset) as u64]
}

/// How many of the first `n` segments of a list the server has at no rung: it has
/// said nothing of them, or that they are missing.
pub open spec fn count_missing(keys: Seq<SeqNo>, best: Map<SeqNo, Option<RungId>>, n: int) -> int
    decreases n,
{
    if n <= 0 {
        0
    } else {
        count_missing(keys, best, n - 1) + (if best.contains_key(keys[n - 1])
            && best[keys[n - 1]] is Some {
            0int
        } else {
            1
        })
    }
}

/// `n` is the number of local segments that the server has not acknowledged, as
/// far as a `u32` holds it.
pub open spec fn is_backlog(inv: LocalInventory, n: u32) -> bool {
    exists|keys: Seq<SeqNo>|
        {
            &&& #[trigger] sorted::ascending(keys)
            &&& forall|k: SeqNo| keys.contains(k) <==> #[trigger] inv.available@.contains_key(k)
            &&& n == store::clamp_u32(
                count_missing(keys, inv.server_best@, keys.len() as int),
            )
        }
}

/// Throughput of an upload of so many bytes in so many microseconds, but at
/// least a millisecond.
pub open spec fn kbps_of(bytes: u64, elapsed_us: u64) -> u32 {
    if elapsed_us < 1000 {
        store::clamp_u32(bytes * 8)
    } else {
        store::clamp_u32(bytes * 8000 / elapsed_us as int)
    }
}

/// Throughput of an upload.
pub fn measured_kbps(bytes: u64, elapsed_us: u64) -> (kbps: u32)
    ensures
        kbps == kbps_of(bytes, elapsed_us),
{
    let us: u128 = if elapsed_us < 1000 {
        1000
    } else {
        elapsed_us as u128
    };
    let kbps: u128 = bytes as u128 * 8000 / us;
    if kbps > u32::MAX as u128 {
        u32::MAX
    } else {
        kbps as u32
    }
}

/// The best rungs that the server reports.
fn collect_best(coverage: &Vec<SegCoverage>) -> (best: BTreeMap<SeqNo, Option<RungId>>)
    ensures
        best@ == reported_best(coverage@, coverage@.len() as int),
{
    let mut best: BTreeMap<SeqNo, Option<RungId>> = BTreeMap::new();
    let mut i: usize = 0;
    while i < coverage.len()
        invariant
            i <= coverage@.len(),
            best@ == reported_best(coverage@, i as int),
        decreases coverage@.len() - i,
    {
        best.insert(coverage[i].seq, coverage[i].best_rung);
        i = i + 1;
    }
    best
}

impl UploadSession {
    /// A session that has uploaded nothing yet. Throughput is guessed from the
    /// operator's default quality.
    pub fn new(profile: &StreamProfile, bootstrap_rung: RungId) -> (session: Self)
        ensures
            session@ == fresh_session(*profile, bootstrap_rung),
    {
        let mut rungs: Vec<RungId> = Vec::new();
        let mut i: usize = 0;
        while i < profile.rungs.len()
            invariant
                i <= profile.rungs@.len(),
                rungs@ == ids_of(*profile).take(i as int),
            decreases profile.rungs@.len() - i,
        {
            rungs.push(profile.rungs[i].id);
            assert(ids_of(*profile).take(i + 1) =~= ids_of(*profile).take(i as int).push(
                profile.rungs@[i as int].id,
            ));
            i = i + 1;
        }
        assert(rungs@ =~= ids_of(*profile));
        let preferred: RungId = profile.nearest_enabled_or_low(bootstrap_rung);
        let guess: u64 = profile.bitrate_of(preferred) as u64 * 4;
        let throughput_kbps: u32 = if guess > u32::MAX as u64 {
            u32::MAX
        } else {
            guess as u32
        };
        UploadSession {
            rungs,
            low: profile.low_rung(),
            preferred,
            throughput_kbps,
            stalled: None,
            abandoned: BTreeSet::new(),
            heartbeat_rev: 0,
            last_heartbeat_ms: None,
            started: false,
            seq_offset: 0,
        }
    }

    /// Until a segment of the session has arrived, its numbering follows the
    /// server's; after that it stays.
    pub fn begin_tick(&mut self, server: &ServerState)
        requires
            server.live_seq matches Some(live) ==> live < u64::MAX,
        ensures
            final(self)@ == old(self)@.begun(*server),
    {
        if !self.started {
            self.seq_offset = resolve_seq_offset(server);
        }
    }

    /// The number that local segment 0 has on the server.
    pub fn seq_offset(&self) -> (offset: SeqNo)
        ensures
            offset == self@.seq_offset,
    {
        self.seq_offset
    }

    /// An upload must say that the session is new.
    pub fn marks_new_session(&self) -> (b: bool)
        ensures
            b == !self@.started,
    {
        !self.started
    }

    /// What is on disk, in the server's numbering, and what the server has.
    pub fn inventory(&self, scan: ScanResult, server: &ServerState) -> (inv: LocalInventory)
        requires
            inventory::bounds(
                inventory::rungs_view(scan.available@),
                scan.oldest_seq,
                scan.encoded_seq,
            ),
            scan.encoded_seq + self@.seq_offset <= u64::MAX,
        ensures
            inv.encoded_seq == scan.encoded_seq + self@.seq_offset,
            inv.oldest_seq == scan.oldest_seq + self@.seq_offset,
            is_shifted(inv.available@, scan.available@, self@.seq_offset),
            is_overlaid(
                inv.server_best@,
                reported_best(server.coverage@, server.coverage@.len() as int),
                self@.abandoned,
                self@.low,
            ),
    {
        let offset: SeqNo = self.seq_offset;
        let ghost view = inventory::rungs_view(scan.available@);
        assert(forall|s: SeqNo| #[trigger]
            view.contains_key(s) <==> scan.available@.contains_key(s));
        let mut server_best = collect_best(&server.coverage);
        let ghost reported = server_best@;
        let given_up = sorted_seqs(&self.abandoned);
        let mut i: usize = 0;
        while i < given_up.len()
            invariant
                i <= given_up@.len(),
                forall|s: SeqNo| #[trigger]
                    server_best@.contains_key(s) <==> reported.contains_key(s) || given_up@.take(
                        i as int,
                    ).contains(s),
                forall|s: SeqNo| #[trigger]
                    server_best@.contains_key(s) ==> server_best@[s] == (if given_up@.take(
                        i as int,
                    ).contains(s) {
                        Some(self.low)
                    } else {
                        reported[s]
                    }),
            decreases given_up@.len() - i,
        {
            proof {
                let head = given_up@.take(i as int);
                let next = given_up@.take(i + 1);
                assert(next =~= head.push(given_up@[i as int]));
                assert forall|s: SeqNo| next.contains(s) <==> head.contains(s) || s
                    == given_up@[i as int] by {
                    if head.contains(s) {
                        let k = choose|k: int| 0 <= k < head.len() && head[k] == s;
                        assert(next[k] == s);
                    }
                    if s == given_up@[i as int] {
                        assert(next[i as int] == s);
                    }
                }
            }
            server_best.insert(given_up[i], Some(self.low));
            i = i + 1;
        }
        assert(given_up@.take(i as int) =~= given_up@);
        assert(forall|s: SeqNo| given_up@.contains(s) <==> #[trigger] self.abandoned@.contains(s));
        let keys = sorted_keys(&scan.available);
        let ghost local = scan.available@;
        assert forall|s: SeqNo| #[trigger] local.contains_key(s) implies s + offset
            <= u64::MAX by {
            assert(view.contains_key(s));
        }
        let mut rest = scan.available;
        let mut available: BTreeMap<SeqNo, Vec<RungId>> = BTreeMap::new();
        let mut i: usize = 0;
        while i < keys.len()
            invariant
                i <= keys@.len(),
                sorted::ascending(keys@),
                offset == self.seq_offset,
                forall|s: SeqNo| keys@.contains(s) <==> #[trigger] local.contains_key(s),
                forall|s: SeqNo| #[trigger] local.contains_key(s) ==> s + offset <= u64::MAX,
                forall|k: int| i <= k < keys@.len() ==> rest@.contains_key(#[trigger] keys@[k])
                    && rest@[keys@[k]] == local[keys@[k]],
                forall|s: SeqNo| #[trigger]
                    available@.contains_key(s) <==> s >= offset && keys@.take(i as int).contains(
                        (s - offset) as u64,
                    ),
                forall|s: SeqNo| #[trigger]
                    available@.contains_key(s) ==> available@[s] == local[(s - offset) as u64],
            decreases keys@.len() - i,
        {
            let key: SeqNo = keys[i];
            proof {
                assert(keys@.contains(key));
                assert(local.contains_key(key));
                let head = keys@.take(i as int);
                let next = keys@.take(i + 1);
                assert(next =~= head.push(key));
                assert forall|s: SeqNo| next.contains(s) <==> head.contains(s) || s == key by {
                    if head.contains(s) {
                        let k = choose|k: int| 0 <= k < head.len() && head[k] == s;
                        assert(next[k] == s);
                    }
                    if s == key {
                        assert(next[i as int] == s);
                    }
                }
            }
            let ghost before = available@;
            if let Some(rungs) = rest.remove(&key) {
                available.insert(key + offset, rungs);
            }
            proof {
                assert(available@.contains_key((key + offset) as u64));
                assert forall|k: int| i + 1 <= k < keys@.len() implies rest@.contains_key(
                    #[trigger] keys@[k],
                ) && rest@[keys@[k]] == local[keys@[k]] by {
                    assert(keys@[i as int] < keys@[k]);
                }
                assert forall|s: SeqNo| #[trigger]
                    available@.contains_key(s) <==> s >= offset && keys@.take(i + 1).contains(
                        (s - offset) as u64,
                    ) by {
                    if s == key + offset {
                        assert((s - offset) as u64 == key);
                    } else {
                        assert(available@.contains_key(s) == before.contains_key(s));
                    }
                }
            }
            i = i + 1;
        }
        assert(keys@.take(i as int) =~= keys@);
        LocalInventory {
            encoded_seq: scan.encoded_seq + offset,
            oldest_seq: scan.oldest_seq + offset,
            available,
            server_best,
        }
    }

    /// Counts down on a gap that nothing can fill. Returns the segment once it
    /// is time to give it up.
    pub fn check_stall(&mut self, gap: Option<SeqNo>, now_ms: u64) -> (give_up: Option<SeqNo>)
        ensures
            final(self)@ == old(self)@.after_gap(gap, now_ms),
            give_up == old(self)@.gives_up(gap, now_ms),
    {
        match gap {
            Some(seq) => {
                if let Some((s, since)) = self.stalled {
                    if s == seq {
                        return if now_ms >= since && now_ms - since >= ABANDON_AFTER_MS {
                            Some(seq)
                        } else {
                            None
                        };
                    }
                }
                self.stalled = Some((seq, now_ms));
                None
            },
            None => {
                self.stalled = None;
                None
            },
        }
    }

    /// The server has taken note that a segment is given up.
    pub fn gave_up(&mut self, seq: SeqNo, inv: &mut LocalInventory)
        ensures
            final(self)@ == old(self)@.after_giving_up(seq),
            final(inv).server_best@ == old(inv).server_best@.insert(seq, Some(old(self)@.low)),
            final(inv).best_at_server(seq as int) is Some,
            final(inv).available == old(inv).available,
            final(inv).encoded_seq == old(inv).encoded_seq,
            final(inv).oldest_seq == old(inv).oldest_seq,
    {
        self.abandoned.insert(seq);
        self.stalled = None;
        inv.server_best.insert(seq, Some(self.low));
    }

    /// The uploads of this tick.
    pub fn plan(&self, profile: &StreamProfile, server: &ServerState, inv: &LocalInventory) -> (plan:
        Vec<UploadAction>)
        requires
            inv.encoded_seq < u64::MAX,
        ensures
            plan@ == scheduler::by_priority(
                (SchedulerInput {
                    profile,
                    server,
                    inv,
                    throughput_kbps: self@.throughput_kbps,
                    headroom_permille: 900,
                    max_actions: 16,
                    preferred_rung: self@.preferred,
                }).capped_plan(),
            ),
            plan@.len() <= 16,
    {
        proof {
            crate::plan_laws::law_plan_is_ordered_and_capped(
                &SchedulerInput {
                    profile,
                    server,
                    inv,
                    throughput_kbps: self.throughput_kbps,
                    headroom_permille: HEADROOM_PERMILLE,
                    max_actions: MAX_ACTIONS,
                    preferred_rung: self.preferred,
                },
            );
        }
        plan_uploads(
            &SchedulerInput {
                profile,
                server,
                inv,
                throughput_kbps: self.throughput_kbps,
                headroom_permille: HEADROOM_PERMILLE,
                max_actions: MAX_ACTIONS,
                preferred_rung: self.preferred,
            },
        )
    }

    /// The rung of the most urgent upload.
    pub fn primary_rung(&self, plan: &Vec<UploadAction>) -> (rung: RungId)
        ensures
            rung == (if plan@.len() > 0 {
                plan@[0].rung
            } else {
                self@.low
            }),
    {
        if plan.len() > 0 {
            plan[0].rung
        } else {
            self.low
        }
    }

    /// Counts the local segments that the server has not acknowledged.
    fn backlog(inv: &LocalInventory) -> (n: u32)
        ensures
            is_backlog(*inv, n),
    {
        let keys = sorted_keys(&inv.available);
        let mut count: u64 = 0;
        let len: usize = keys.len();
        let mut i: usize = 0;
        while i < len
            invariant
                i <= len,
                len == keys@.len(),
                count <= i,
                count == count_missing(keys@, inv.server_best@, i as int),
            decreases len - i,
        {
            if !inv.server_has_any(keys[i]) {
                count = count + 1;
            }
            i = i + 1;
        }
        let n: u32 = if count > u32::MAX as u64 {
            u32::MAX
        } else {
            count as u32
        };
        assert(sorted::ascending(keys@));
        n
    }

    /// The telemetry to send, when it is time again.
    pub fn heartbeat(
        &mut self,
        inv: &LocalInventory,
        primary_rung: RungId,
        auto_start_buffer_ms: Option<u32>,
        now_ms: u64,
    ) -> (state: Option<EncoderState>)
        requires
            old(self)@.heartbeat_rev < u64::MAX,
        ensures
            state is Some <==> old(self)@.heartbeat_due(now_ms),
            state is None ==> final(self)@ == old(self)@,
            state matches Some(s) ==> {
                &&& final(self)@ == old(self)@.after_heartbeat(now_ms)
                &&& s.rev == old(self)@.heartbeat_rev + 1
                &&& s.rev == final(self)@.heartbeat_rev
                &&& s.active_rungs@ == old(self)@.rungs
                &&& s.encoded_seq == (if inv.available@.is_empty() {
                    None
                } else {
                    Some(inv.encoded_seq)
                })
                &&& s.primary_rung == primary_rung
                &&& s.throughput_kbps == old(self)@.throughput_kbps
                &&& is_backlog(*inv, s.backlog)
                &&& sorted::ascending(s.abandoned@)
                &&& forall|k: SeqNo|
                    s.abandoned@.contains(k) <==> #[trigger] old(self)@.abandoned.contains(k)
                &&& s.auto_start_buffer_ms == auto_start_buffer_ms
            },
    {
        if let Some(at) = self.last_heartbeat_ms {
            if now_ms < at || now_ms - at < HEARTBEAT_INTERVAL_MS {
                return None;
            }
        }
        self.heartbeat_rev = self.heartbeat_rev + 1;
        self.last_heartbeat_ms = Some(now_ms);
        let mut active_rungs: Vec<RungId> = Vec::new();
        let mut i: usize = 0;
        while i < self.rungs.len()
            invariant
                i <= self.rungs@.len(),
                active_rungs@ == self.rungs@.take(i as int),
            decreases self.rungs@.len() - i,
        {
            active_rungs.push(self.rungs[i]);
            i = i + 1;
        }
        assert(active_rungs@ =~= self.rungs@);
        let encoded_seq: Option<SeqNo> = if inv.available.is_empty() {
            None
        } else {
            Some(inv.encoded_seq)
        };
        Some(
            EncoderState {
                rev: self.heartbeat_rev,
                active_rungs,
                encoded_seq,
                primary_rung,
                throughput_kbps: self.throughput_kbps,
                backlog: Self::backlog(inv),
                abandoned: sorted_seqs(&self.abandoned),
                auto_start_buffer_ms,
            },
        )
    }

    /// A segment has arrived at the server.
    pub fn uploaded(&mut self, bytes: u64, elapsed_us: u64) -> (kbps: u32)
        ensures
            kbps == kbps_of(bytes, elapsed_us),
            final(self)@ == old(self)@.after_upload(bytes, elapsed_us),
    {
        self.started = true;
        self.throughput_kbps = measured_kbps(bytes, elapsed_us);
        self.throughput_kbps
    }

    /// The local file of an upload.
    pub fn local_file(&self, out_dir: &str, action: &UploadAction) -> (path: String)
        requires
            action.seq >= self@.seq_offset,
        ensures
            path@ == self@.file_of(out_dir@, *action),
    {
        let mut path = rung_dir(out_dir, action.rung);
        path.append("/");
        push_decimal(&mut path, action.seq - self.seq_offset);
        path.append(".ts");
        path
    }
}

/// Every upload in a plan has its file: the plan only names what the scan found.
pub proof fn law_planned_uploads_have_files(
    input: &SchedulerInput,
    local: Map<SeqNo, Vec<RungId>>,
    offset: SeqNo,
    i: int,
)
    requires
        is_shifted(input.inv.available@, local, offset),
        0 <= i < crate::plan_laws::plan_of(input).len(),
    ensures
        ({
            let a = crate::plan_laws::plan_of(input)[i];
            &&& a.seq >= offset
            &&& local.contains_key((a.seq - offset) as u64)
            &&& local[(a.seq - offset) as u64]@.contains(a.rung)
        }),
{
    crate::plan_laws::law_plan_sends_what_is_on_disk_from_the_anchor_on(input, i);
    let a = crate::plan_laws::plan_of(input)[i];
    assert(input.inv.available@.contains_key(a.seq));
}

/// A segment that was given up is never the gap that blocks continuity again.
pub proof fn law_given_up_segments_do_not_block(
    server: &ServerState,
    inv: &LocalInventory,
    given_up: Set<SeqNo>,
    low: RungId,
    seq: SeqNo,
)
    requires
        is_overlaid(
            inv.server_best@,
            reported_best(server.coverage@, server.coverage@.len() as int),
            given_up,
            low,
        ),
        given_up.contains(seq),
    ensures
        !scheduler::first_hole(server, inv, seq as int),
{
    assert(inv.server_best@.contains_key(seq));
}

/// A session appends to what the server has: none of its segments takes the
/// number of one that is already there.
pub proof fn law_a_session_appends(server: ServerState, local: SeqNo)
    requires
        !server.stale_session,
        server.live_seq matches Some(live) && live < u64::MAX,
    ensures
        local + seq_offset_for(server) > server.live_seq->0,
{
}

/// A session's segments follow those of the server without a gap, and start from 0 where
/// the stream is stale or new. Once a segment of the session has arrived, its numbering
/// stays, whatever the server says.
pub proof fn law_numbering_is_settled_by_the_first_arrival(
    session: Session,
    server: ServerState,
    later: ServerState,
    bytes: u64,
    elapsed_us: u64,
)
    requires
        !session.started,
        server.live_seq matches Some(live) ==> live < u64::MAX,
    ensures
        ({
            let begun = session.begun(server);
            &&& server.stale_session || server.live_seq is None ==> begun.seq_offset == 0
            &&& !server.stale_session && server.live_seq is Some ==> begun.seq_offset
                == server.live_seq->0 + 1
            &&& !begun.started
            &&& begun.after_upload(bytes, elapsed_us).begun(later).seq_offset == begun.seq_offset
            &&& begun.begun(later) == session.begun(later)
        }),
{
}

/// A gap is given up once nothing could fill it for twenty seconds, counted from when it
/// was first seen, however often it is looked at in between, and not before.
pub proof fn law_a_gap_is_given_up_in_time(
    session: Session,
    seq: SeqNo,
    first_ms: u64,
    later_ms: u64,
    last_ms: u64,
)
    requires
        session.stalled matches Some((s, since)) ==> s != seq,
    ensures
        ({
            let seen = session.after_gap(Some(seq), first_ms);
            let again = seen.after_gap(Some(seq), later_ms);
            &&& session.gives_up(Some(seq), first_ms) is None
            &&& again.gives_up(Some(seq), last_ms) == (if last_ms >= first_ms + 20_000 {
                Some(seq)
            } else {
                None
            })
        }),
{
}

/// A gap that was filled, or has made room for another one, starts over.
pub proof fn law_another_gap_starts_over(
    session: Session,
    seq: SeqNo,
    other: Option<SeqNo>,
    other_ms: u64,
    back_ms: u64,
    last_ms: u64,
)
    requires
        other != Some(seq),
    ensures
        ({
            let back = session.after_gap(other, other_ms).after_gap(Some(seq), back_ms);
            back.gives_up(Some(seq), last_ms) is Some <==> last_ms >= back_ms + 20_000
        }),
        session.gives_up(None, last_ms) is None,
{
}

/// What was given up stays so, and the countdown is over with it.
pub proof fn law_giving_up_is_final(session: Session, seq: SeqNo, other: SeqNo, now_ms: u64)
    ensures
        session.after_giving_up(seq).abandoned.contains(seq),
        session.abandoned.contains(other) ==> session.after_giving_up(seq).abandoned.contains(other),
        session.after_giving_up(seq).abandoned.contains(other) ==> other == seq
            || session.abandoned.contains(other),
        session.after_giving_up(seq).gives_up(Some(other), now_ms) is None,
{
}

/// Telemetry goes out at once and then once a second, each time under a higher revision.
pub proof fn law_telemetry_goes_out_every_second(session: Session, now_ms: u64, later_ms: u64)
    requires
        session.heartbeat_rev < u64::MAX,
    ensures
        session.last_heartbeat_ms is None ==> session.heartbeat_due(now_ms),
        session.after_heartbeat(now_ms).heartbeat_due(later_ms) <==> later_ms >= now_ms + 1_000,
        session.after_heartbeat(now_ms).heartbeat_rev > session.heartbeat_rev,
{
}

/// Throughput is measured in bits per millisecond, rounded down; an upload that took less
/// than a millisecond counts as one.
pub proof fn law_throughput_is_bits_per_millisecond(bytes: u64, elapsed_us: u64)
    requires
        kbps_of(bytes, elapsed_us) < u32::MAX,
    ensures
        elapsed_us >= 1000 ==> kbps_of(bytes, elapsed_us) * elapsed_us <= bytes * 8 * 1000 && bytes
            * 8 * 1000 < (kbps_of(bytes, elapsed_us) + 1) * elapsed_us,
        elapsed_us < 1000 ==> kbps_of(bytes, elapsed_us) == bytes * 8,
{
    let x = bytes * 8000;
    let u = elapsed_us as int;
    let k = kbps_of(bytes, elapsed_us) as int;
    if elapsed_us >= 1000 {
        let q = x / u;
        assert(q * u <= x && x < (q + 1) * u) by (nonlinear_arith)
            requires
                q == x / u,
                u > 0,
                x >= 0,
        ;
        assert(k == q);
    }
}

/// The encoder goes by what the server reports of each segment: where no segment is
/// reported twice, by its entry; a segment that is not reported is not there.
pub proof fn law_reports_are_taken_as_they_are(coverage: Seq<SegCoverage>, n: int, i: int)
    requires
        0 <= i < n <= coverage.len(),
        forall|a: int, b: int|
            0 <= a < b < coverage.len() ==> (#[trigger] coverage[a]).seq != (
            #[trigger] coverage[b]).seq,
    ensures
        reported_best(coverage, n).contains_key(coverage[i].seq),
        reported_best(coverage, n)[coverage[i].seq] == coverage[i].best_rung,
        forall|s: SeqNo| #[trigger]
            reported_best(coverage, n).contains_key(s) ==> exists|k: int|
                0 <= k < n && (#[trigger] coverage[k]).seq == s,
    decreases n,
{
    if i < n - 1 {
        law_reports_are_taken_as_they_are(coverage, n - 1, i);
        assert(coverage[i].seq != coverage[n - 1].seq);
    } else if n > 1 {
        law_reports_are_taken_as_they_are(coverage, n - 1, 0);
    }
    assert forall|s: SeqNo| #[trigger] reported_best(coverage, n).contains_key(s) implies exists|
        k: int,
    | 0 <= k < n && (#[trigger] coverage[k]).seq == s by {
        if s == coverage[n - 1].seq {
            assert(coverage[n - 1].seq == s);
        } else {
            assert(reported_best(coverage, n - 1).contains_key(s));
            if n > 1 {
                let k = choose|k: int| 0 <= k < n - 1 && (#[trigger] coverage[k]).seq == s;
                assert(coverage[k].seq == s);
            }
        }
    }
}

/// A segment that was given up counts as held, so that it is neither sent nor waited for;
/// every other one is as the server reports it.
pub proof fn law_given_up_counts_as_held(
    best: Map<SeqNo, Option<RungId>>,
    reported: Map<SeqNo, Option<RungId>>,
    given_up: Set<SeqNo>,
    low: RungId,
    seq: SeqNo,
)
    requires
        is_overlaid(best, reported, given_up, low),
    ensures
        given_up.contains(seq) ==> best.contains_key(seq) && best[seq] is Some,
        !given_up.contains(seq) ==> best.contains_key(seq) == reported.contains_key(seq),
        !given_up.contains(seq) && reported.contains_key(seq) ==> best[seq] == reported[seq],
{
    assert(best.contains_key(seq) <==> reported.contains_key(seq) || given_up.contains(seq));
}

/// What is on disk under a local number is planned with under the session's number, and
/// nothing else is.
pub proof fn law_local_numbers_are_shifted(
    shifted: Map<SeqNo, Vec<RungId>>,
    local: Map<SeqNo, Vec<RungId>>,
    offset: SeqNo,
    seq: SeqNo,
)
    requires
        is_shifted(shifted, local, offset),
        seq + offset <= u64::MAX,
    ensures
        shifted.contains_key((seq + offset) as u64) <==> local.contains_key(seq),
        local.contains_key(seq) ==> shifted[(seq + offset) as u64] == local[seq],
        seq < offset ==> !shifted.contains_key(seq),
{
    assert(((seq + offset) as u64 - offset) as u64 == seq);
}

/// The backlog is the number of local segments that the server has at no rung.
pub proof fn law_the_backlog_counts_what_is_missing(
    keys: Seq<SeqNo>,
    best: Map<SeqNo, Option<RungId>>,
    n: int,
)
    requires
        0 <= n <= keys.len(),
    ensures
        count_missing(keys, best, n) == keys.take(n).filter(
            |k: SeqNo| !(best.contains_key(k) && best[k] is Some),
        ).len(),
        0 <= count_missing(keys, best, n) <= n,
    decreases n,
{
    reveal(Seq::filter);
    if n > 0 {
        law_the_backlog_counts_what_is_missing(keys, best, n - 1);
        assert(keys.take(n).drop_last() =~= keys.take(n - 1));
    } else {
        assert(keys.take(0) =~= Seq::<SeqNo>::empty());
    }
}

/// What is uploaded under the session's number of a segment is the local file of that
/// segment, at the planned rung: no two uploads of a session read the same file.
pub proof fn law_an_upload_reads_its_own_file(
    session: Session,
    out_dir: Seq<char>,
    local: SeqNo,
    a: UploadAction,
    b: UploadAction,
)
    requires
        local + session.seq_offset <= u64::MAX,
        a.seq == local + session.seq_offset,
        b.seq >= session.seq_offset,
    ensures
        session.file_of(out_dir, a) == store::dir_prefix(out_dir) + text::decimal(a.rung as nat)
            + "/"@ + text::decimal(local as nat) + ".ts"@,
        session.file_of(out_dir, a) == session.file_of(out_dir, b) ==> a.seq == b.seq && a.rung
            == b.rung,
{
    if session.file_of(out_dir, a) == session.file_of(out_dir, b) {
        crate::store_laws::law_segment_files_are_distinct(
            out_dir,
            a.rung,
            (a.seq - session.seq_offset) as u64,
            b.rung,
            (b.seq - session.seq_offset) as u64,
        );
    }
}

/// Before anything is measured, the link is taken to carry the operator's default quality
/// four times over, where the ladder has it; a session starts with nothing given up and
/// marks its uploads as new until the first one has arrived.
pub proof fn law_a_session_starts_on_the_default_quality(
    profile: StreamProfile,
    k: int,
    bytes: u64,
    elapsed_us: u64,
)
    requires
        0 <= k < profile.rungs@.len(),
        forall|j: int| 0 <= j < k ==> (#[trigger] profile.rungs@[j]).id != profile.rungs@[k].id,
        profile.rungs@[k].bitrate_kbps * 4 <= u32::MAX,
    ensures
        ({
            let session = fresh_session(profile, profile.rungs@[k].id);
            &&& session.preferred == profile.rungs@[k].id
            &&& session.throughput_kbps == 4 * profile.rungs@[k].bitrate_kbps
            &&& session.low == profile.rungs@[0].id
            &&& session.rungs.len() == profile.rungs@.len() && session.rungs[k]
                == profile.rungs@[k].id
            &&& session.abandoned == Set::<SeqNo>::empty()
            &&& !session.started && session.after_upload(bytes, elapsed_us).started
            &&& session.heartbeat_due(0)
        }),
{
    crate::state::law_a_rung_is_found_by_its_id(&profile, k);
}

} // verus!
