//! What the encoder knows of the server, and its own telemetry and log.

use std::collections::{BTreeMap, VecDeque};
use vstd::prelude::*;

use crate::control::{LogEntry, LogLevel};
use crate::logs::{copy_entries, copy_entry};
use crate::sorted::sorted_keys;
use crate::scheduler;
use crate::state::{PlayoutStatus, RungId, SegCoverage, SeqNo, ServerState, WaterLevels};
use crate::sorted;

verus! {

broadcast use vstd::std_specs::btree::group_btree_axioms;

/// How long the server's state is trusted without news.
pub const STALE_AFTER_MS: u64 = 5_000;

/// Most log lines that are kept.
pub const LOG_CAP: usize = 200;

/// Most uploads that are remembered.
pub const UPLOAD_HISTORY_CAP: usize = 4096;

/// The quality that is on air, or probably is.
#[derive(Clone, Copy, Debug, PartialEq, Eq, Structural)]
pub struct QualityEstimate {
    pub rung: RungId,
    pub seq: SeqNo,
    /// Extrapolated from the upload history, for want of news.
    pub estimated: bool,
}

/// The encoder's model of the server.
pub struct SharedState {
    server: ServerState,
    /// When the server was last heard from.
    server_updated_at_ms: Option<u64>,
    last_uploaded_seq: Option<SeqNo>,
    throughput_kbps: u32,
    /// The rung of the most urgent upload.
    primary_rung: RungId,
    /// Rung of each segment that was uploaded.
    upload_history: BTreeMap<SeqNo, RungId>,
    log: VecDeque<LogEntry>,
    /// Lines ever logged.
    log_seq: u64,
    /// An error was logged since this was last asked.
    encoder_failed: bool,
}

/// The model as plain values.
pub ghost struct Shared {
    pub server: ServerState,
    pub updated_at_ms: Option<u64>,
    pub last_uploaded_seq: Option<SeqNo>,
    pub throughput_kbps: u32,
    pub primary_rung: RungId,
    pub history: Map<SeqNo, RungId>,
    pub log: Seq<LogEntry>,
    pub log_seq: u64,
    pub encoder_failed: bool,
}

/// Two server states say the same.
pub open spec fn same_state(a: ServerState, b: ServerState) -> bool {
    &&& a.rev == b.rev
    &&& a.live_seq == b.live_seq
    &&& a.dvr_start_seq == b.dvr_start_seq
    &&& a.playout == b.playout
    &&& a.frontier_seq == b.frontier_seq
    &&& a.lead_ms == b.lead_ms
    &&& a.water == b.water
    &&& a.coverage@ == b.coverage@
    &&& a.buffered_ms == b.buffered_ms
    &&& a.stale_session == b.stale_session
}

/// A state that says nothing of the server: stopped, nothing buffered.
pub open spec fn says_nothing(s: ServerState) -> bool {
    &&& s.rev == 0
    &&& s.live_seq is None
    &&& s.dvr_start_seq is None
    &&& s.playout.state == crate::state::PlayoutState::Stopped
    &&& s.playout.position_seq is None
    &&& s.playout.playing_rung is None
    &&& s.playout.fed_seq is None
    &&& s.playout.position_ms_into_segment == 0
    &&& s.playout.device is None
    &&& s.playout.volume_millis == 1000
    &&& s.playout.detail is None
    &&& !s.playout.test_tone
    &&& s.frontier_seq is None
    &&& s.lead_ms == 0
    &&& s.water == (WaterLevels { low_ms: 4_000, target_ms: 12_000, high_ms: 20_000 })
    &&& s.coverage@.len() == 0
    &&& s.buffered_ms == 0
    &&& !s.stale_session
}

/// Copies a text that may be absent.
fn copy_text(text: &Option<String>) -> (copy: Option<String>)
    ensures
        copy == *text,
{
    match text {
        Some(t) => Some(t.clone()),
        None => None,
    }
}

/// Copies a server state.
pub fn copy_state(s: &ServerState) -> (copy: ServerState)
    ensures
        same_state(copy, *s),
{
    let mut coverage: Vec<SegCoverage> = Vec::new();
    let mut i: usize = 0;
    while i < s.coverage.len()
        invariant
            i <= s.coverage@.len(),
            coverage@ == s.coverage@.take(i as int),
        decreases s.coverage@.len() - i,
    {
        coverage.push(s.coverage[i]);
        i = i + 1;
    }
    assert(coverage@ =~= s.coverage@);
    let playout = PlayoutStatus {
        state: s.playout.state,
        position_seq: s.playout.position_seq,
        playing_rung: s.playout.playing_rung,
        fed_seq: s.playout.fed_seq,
        position_ms_into_segment: s.playout.position_ms_into_segment,
        device: copy_text(&s.playout.device),
        volume_millis: s.playout.volume_millis,
        detail: copy_text(&s.playout.detail),
        test_tone: s.playout.test_tone,
    };
    ServerState {
        rev: s.rev,
        live_seq: s.live_seq,
        dvr_start_seq: s.dvr_start_seq,
        playout,
        frontier_seq: s.frontier_seq,
        lead_ms: s.lead_ms,
        water: s.water,
        coverage,
        buffered_ms: s.buffered_ms,
        stale_session: s.stale_session,
    }
}

/// A capped log with one more line.
pub open spec fn logged(log: Seq<LogEntry>, entry: LogEntry) -> Seq<LogEntry> {
    if log.len() < LOG_CAP {
        log.push(entry)
    } else {
        log.skip(log.len() - LOG_CAP + 1).push(entry)
    }
}

/// `seq` is the oldest upload remembered.
pub open spec fn is_first_key(history: Map<SeqNo, RungId>, seq: SeqNo) -> bool {
    history.contains_key(seq) && forall|s: SeqNo| #[trigger] history.contains_key(s) ==> seq <= s
}

/// `seq` is the newest upload remembered that is not past `limit`.
pub open spec fn is_last_key_up_to(history: Map<SeqNo, RungId>, limit: SeqNo, seq: SeqNo) -> bool {
    &&& history.contains_key(seq)
    &&& seq <= limit
    &&& forall|s: SeqNo| #[trigger] history.contains_key(s) && s <= limit ==> s <= seq
}

impl View for SharedState {
    type V = Shared;

    closed spec fn view(&self) -> Shared {
        Shared {
            server: self.server,
            updated_at_ms: self.server_updated_at_ms,
            last_uploaded_seq: self.last_uploaded_seq,
            throughput_kbps: self.throughput_kbps,
            primary_rung: self.primary_rung,
            history: self.upload_history@,
            log: self.log@,
            log_seq: self.log_seq,
            encoder_failed: self.encoder_failed,
        }
    }
}

impl Shared {
    /// The caps hold.
    pub open spec fn wf(self) -> bool {
        &&& self.history.len() <= UPLOAD_HISTORY_CAP
        &&& self.history.dom().finite()
        &&& self.log.len() <= LOG_CAP
    }

    /// After news of the server, unless newer ones are known.
    pub open spec fn after_news(self, news: ServerState, now_ms: u64) -> Shared {
        if news.rev >= self.server.rev {
            Shared { server: news, updated_at_ms: Some(now_ms), ..self }
        } else {
            self
        }
    }

    /// The server was heard from recently.
    pub open spec fn fresh(self, now_ms: u64) -> bool {
        self.updated_at_ms matches Some(at) && now_ms - at < STALE_AFTER_MS
    }

    /// Time since the server was heard from, 0 if it never was.
    pub open spec fn age_ms(self, now_ms: u64) -> u64 {
        match self.updated_at_ms {
            Some(at) => if now_ms < at {
                0
            } else {
                (now_ms - at) as u64
            },
            None => 0,
        }
    }

    /// The segment that is on air if the head kept moving since the last news.
    pub open spec fn guessed_seq(self, pos: SeqNo, segment_ms: u32, now_ms: u64) -> SeqNo {
        let step = if segment_ms == 0 {
            1
        } else {
            segment_ms as int
        };
        let guess = pos + self.age_ms(now_ms) as int / step;
        if guess > u64::MAX {
            u64::MAX
        } else {
            guess as u64
        }
    }

    /// `quality` is what was uploaded last up to the guessed segment.
    pub open spec fn is_estimate(self, guess: SeqNo, quality: Option<QualityEstimate>) -> bool {
        match quality {
            Some(q) => {
                &&& q.estimated
                &&& q.seq == guess
                &&& exists|s: SeqNo|
                    #[trigger] is_last_key_up_to(self.history, guess, s) && self.history[s]
                        == q.rung
            },
            None => forall|s: SeqNo| #[trigger] self.history.contains_key(s) ==> s > guess,
        }
    }
}

impl SharedState {
    /// Nothing known, nothing done.
    pub fn new() -> (shared: Self)
        ensures
            shared@.wf(),
            says_nothing(shared@.server),
            shared@.updated_at_ms is None,
            shared@.last_uploaded_seq is None,
            shared@.throughput_kbps == 0,
            shared@.primary_rung == 0,
            shared@.history == Map::<SeqNo, RungId>::empty(),
            shared@.log == Seq::<LogEntry>::empty(),
            shared@.log_seq == 0,
            !shared@.encoder_failed,
    {
        let shared = SharedState {
            server: ServerState::unknown(),
            server_updated_at_ms: None,
            last_uploaded_seq: None,
            throughput_kbps: 0,
            primary_rung: 0,
            upload_history: BTreeMap::new(),
            log: VecDeque::new(),
            log_seq: 0,
            encoder_failed: false,
        };
        assert(shared@.log =~= Seq::<LogEntry>::empty());
        shared
    }

    /// Appends a log line, and returns its number. An error latches.
    pub fn push_log(&mut self, at_ms: u64, level: LogLevel, message: String) -> (number: u64)
        requires
            old(self)@.wf(),
            old(self)@.log_seq < u64::MAX,
        ensures
            final(self)@.wf(),
            number == old(self)@.log_seq + 1,
            final(self)@ == (Shared {
                log: logged(old(self)@.log, LogEntry { at_ms, level, message }),
                log_seq: number,
                encoder_failed: old(self)@.encoder_failed || level == LogLevel::Error,
                ..old(self)@
            }),
    {
        if level == LogLevel::Error {
            self.encoder_failed = true;
        }
        self.log_seq = self.log_seq + 1;
        if self.log.len() >= LOG_CAP {
            self.log.pop_front();
            assert(self.log@ =~= old(self)@.log.skip(1));
        }
        self.log.push_back(LogEntry { at_ms, level, message });
        self.log_seq
    }

    /// The log, oldest line first.
    pub fn recent_log(&self) -> (lines: Vec<LogEntry>)
        ensures
            lines@ == self@.log,
    {
        copy_entries(&self.log)
    }

    /// The last log line.
    pub fn latest_log(&self) -> (line: Option<LogEntry>)
        ensures
            line == (if self@.log.len() == 0 {
                None
            } else {
                Some(self@.log.last())
            }),
    {
        if self.log.len() == 0 {
            None
        } else {
            Some(copy_entry(&self.log[self.log.len() - 1]))
        }
    }

    /// Lines ever logged.
    pub fn log_seq(&self) -> (n: u64)
        ensures
            n == self@.log_seq,
    {
        self.log_seq
    }

    /// An error was logged since this was last asked.
    pub fn take_encoder_failed(&mut self) -> (failed: bool)
        ensures
            failed == old(self)@.encoder_failed,
            final(self)@ == (Shared { encoder_failed: false, ..old(self)@ }),
    {
        let failed = self.encoder_failed;
        self.encoder_failed = false;
        failed
    }

    /// Takes news of the server, unless newer ones are known.
    pub fn update(&mut self, new_state: ServerState, now_ms: u64)
        ensures
            final(self)@ == old(self)@.after_news(new_state, now_ms),
    {
        if new_state.rev >= self.server.rev {
            self.server = new_state;
            self.server_updated_at_ms = Some(now_ms);
        }
    }

    /// The server was heard from recently.
    pub fn is_fresh(&self, now_ms: u64) -> (fresh: bool)
        ensures
            fresh == self@.fresh(now_ms),
    {
        match self.server_updated_at_ms {
            Some(at) => now_ms < at || now_ms - at < STALE_AFTER_MS,
            None => false,
        }
    }

    /// The server's state if it was heard from recently, else one that says
    /// nothing, on which the encoder plays safe.
    pub fn server_state_or_unknown(&self, now_ms: u64) -> (state: ServerState)
        ensures
            self@.fresh(now_ms) ==> same_state(state, self@.server),
            !self@.fresh(now_ms) ==> says_nothing(state),
    {
        if self.is_fresh(now_ms) {
            copy_state(&self.server)
        } else {
            ServerState::unknown()
        }
    }

    /// The server's last known state, and how old that is.
    pub fn server_snapshot(&self, now_ms: u64) -> (snapshot: (&ServerState, u64))
        ensures
            *snapshot.0 == self@.server,
            snapshot.1 == self@.age_ms(now_ms),
    {
        let age: u64 = match self.server_updated_at_ms {
            Some(at) => now_ms.saturating_sub(at),
            None => 0,
        };
        (&self.server, age)
    }

    /// Takes note of an upload.
    pub fn note_upload(&mut self, seq: SeqNo, throughput_kbps: u32)
        ensures
            final(self)@ == (Shared {
                last_uploaded_seq: Some(seq),
                throughput_kbps,
                ..old(self)@
            }),
    {
        self.last_uploaded_seq = Some(seq);
        self.throughput_kbps = throughput_kbps;
    }

    pub fn last_uploaded_seq(&self) -> (seq: Option<SeqNo>)
        ensures
            seq == self@.last_uploaded_seq,
    {
        self.last_uploaded_seq
    }

    pub fn throughput_kbps(&self) -> (kbps: u32)
        ensures
            kbps == self@.throughput_kbps,
    {
        self.throughput_kbps
    }

    /// Takes note of the rung of the most urgent upload.
    pub fn note_primary_rung(&mut self, rung: RungId)
        ensures
            final(self)@ == (Shared { primary_rung: rung, ..old(self)@ }),
    {
        self.primary_rung = rung;
    }

    pub fn primary_rung(&self) -> (rung: RungId)
        ensures
            rung == self@.primary_rung,
    {
        self.primary_rung
    }

    /// Takes note of the rung that a segment was uploaded at. The oldest one is
    /// forgotten once there are too many.
    pub fn note_sent(&mut self, seq: SeqNo, rung: RungId)
        requires
            old(self)@.wf(),
        ensures
            final(self)@.wf(),
            ({
                let added = old(self)@.history.insert(seq, rung);
                if added.len() <= UPLOAD_HISTORY_CAP {
                    final(self)@ == (Shared { history: added, ..old(self)@ })
                } else {
                    exists|oldest: SeqNo|
                        #[trigger] is_first_key(added, oldest) && final(self)@ == (Shared {
                            history: added.remove(oldest),
                            ..old(self)@
                        })
                }
            }),
            old(self)@.history.len() < 4096 ==> final(self)@.history == old(self)@.history.insert(
                seq,
                rung,
            ),
    {
        self.upload_history.insert(seq, rung);
        let ghost added = self.upload_history@;
        assert(added == old(self)@.history.insert(seq, rung));
        assert(added.len() <= old(self)@.history.len() + 1);
        if self.upload_history.len() > UPLOAD_HISTORY_CAP {
            let keys = sorted_keys(&self.upload_history);
            assert(keys@.contains(seq)) by {
                assert(self.upload_history@.contains_key(seq));
            }
            let oldest: SeqNo = keys[0];
            assert(is_first_key(added, oldest)) by {
                assert(keys@.contains(oldest));
                assert forall|s: SeqNo| #[trigger] added.contains_key(s) implies oldest <= s by {
                    assert(keys@.contains(s));
                }
            }
            self.upload_history.remove(&oldest);
            assert(self.upload_history@ == added.remove(oldest));
        }
    }

    /// The quality on air. With fresh news it is what the server says it has
    /// fed for the audible segment. Without, the head is taken to have moved on
    /// by one segment per segment length, and the quality to be what was
    /// uploaded there.
    pub fn playing_quality(&self, segment_ms: u32, now_ms: u64) -> (quality: Option<
        QualityEstimate,
    >)
        ensures
            self@.server.playout.position_seq is None ==> quality is None,
            self@.server.playout.position_seq matches Some(pos) ==> {
                &&& self@.fresh(now_ms) ==> quality == (
                match self@.server.playout.playing_rung {
                    Some(rung) => Some(QualityEstimate { rung, seq: pos, estimated: false }),
                    None => None,
                })
                &&& !self@.fresh(now_ms) && self@.updated_at_ms is None ==> quality is None
                &&& !self@.fresh(now_ms) && self@.updated_at_ms is Some ==> self@.is_estimate(
                    self@.guessed_seq(pos, segment_ms, now_ms),
                    quality,
                )
            },
    {
        let pos: SeqNo = match self.server.playout.position_seq {
            Some(pos) => pos,
            None => {
                return None;
            },
        };
        if self.is_fresh(now_ms) {
            return match self.server.playout.playing_rung {
                Some(rung) => Some(QualityEstimate { rung, seq: pos, estimated: false }),
                None => None,
            };
        }
        let at: u64 = match self.server_updated_at_ms {
            Some(at) => at,
            None => {
                return None;
            },
        };
        let step: u64 = if segment_ms == 0 {
            1
        } else {
            segment_ms as u64
        };
        let guess: SeqNo = pos.saturating_add(now_ms.saturating_sub(at) / step);
        assert(guess == self@.guessed_seq(pos, segment_ms, now_ms));
        let keys = sorted_keys(&self.upload_history);
        let mut i: usize = keys.len();
        while i > 0
            invariant
                i <= keys@.len(),
                sorted::ascending(keys@),
                forall|k: SeqNo| keys@.contains(k) <==> #[trigger] self@.history.contains_key(k),
                forall|j: int| i <= j < keys@.len() ==> keys@[j] > guess,
                self@.server.playout.position_seq == Some(pos),
                !self@.fresh(now_ms),
                self@.updated_at_ms is Some,
                guess == self@.guessed_seq(pos, segment_ms, now_ms),
            decreases i,
        {
            i = i - 1;
            let key: SeqNo = keys[i];
            if key <= guess {
                assert(keys@.contains(key));
                assert(is_last_key_up_to(self@.history, guess, key)) by {
                    assert forall|s: SeqNo| #[trigger]
                        self@.history.contains_key(s) && s <= guess implies s <= key by {
                        assert(keys@.contains(s));
                        let t = choose|t: int| 0 <= t < keys@.len() && keys@[t] == s;
                        if t > i {
                            assert(keys@[t] > guess);
                        } else if t < i {
                            assert(keys@[t] < keys@[i as int]);
                        }
                    }
                }
                let found = self.upload_history.get(&key);
                assert(self.upload_history@.contains_key(key));
                assert(found is Some);
                let quality = match found {
                    Some(rung) => Some(
                        QualityEstimate { rung: *rung, seq: guess, estimated: true },
                    ),
                    None => None,
                };
                assert(self@.history[key] == quality->0.rung);
                assert(self@.is_estimate(guess, quality));
                return quality;
            }
        }
        assert forall|s: SeqNo| #[trigger] self@.history.contains_key(s) implies s > guess by {
            assert(keys@.contains(s));
        }
        None
    }
}

/// The revision of what is known of the server never goes down: what is older than what is
/// known changes nothing, and what is as new counts as heard just now.
pub proof fn law_older_news_are_ignored(before: Shared, after: Shared, news: ServerState, now_ms: u64)
    requires
        after == before.after_news(news, now_ms),
    ensures
        after.server.rev >= before.server.rev,
        after.server.rev >= news.rev,
        news.rev < before.server.rev ==> after == before,
        news.rev >= before.server.rev ==> after.server == news && after.updated_at_ms == Some(
            now_ms,
        ),
        after.history == before.history && after.log == before.log,
{
}

/// News count for five seconds and not longer, and no news never do.
pub proof fn law_news_count_for_five_seconds(
    before: Shared,
    news: ServerState,
    heard_ms: u64,
    now_ms: u64,
)
    requires
        news.rev >= before.server.rev,
    ensures
        before.after_news(news, heard_ms).fresh(now_ms) <==> now_ms < heard_ms + 5_000,
        now_ms >= heard_ms ==> before.after_news(news, heard_ms).age_ms(now_ms) == now_ms - heard_ms,
        before.updated_at_ms is None ==> !before.fresh(now_ms),
{
}

/// Without news the head is taken to move on by one segment in the time of one, from
/// where it was last reported.
pub proof fn law_the_head_moves_on_in_real_time(
    shared: Shared,
    pos: SeqNo,
    segment_ms: u32,
    heard_ms: u64,
    now_ms: u64,
)
    requires
        shared.updated_at_ms == Some(heard_ms),
        heard_ms <= now_ms,
        segment_ms > 0,
        shared.guessed_seq(pos, segment_ms, now_ms) < u64::MAX,
    ensures
        ({
            let guess = shared.guessed_seq(pos, segment_ms, now_ms);
            &&& guess >= pos
            &&& (guess - pos) * segment_ms <= now_ms - heard_ms
            &&& now_ms - heard_ms < (guess - pos + 1) * segment_ms
        }),
{
    let age = now_ms - heard_ms;
    let step = segment_ms as int;
    let q = age / step;
    assert(q >= 0 && q * step <= age && age < (q + 1) * step) by (nonlinear_arith)
        requires
            q == age / step,
            step > 0,
            age >= 0,
    ;
    assert(shared.guessed_seq(pos, segment_ms, now_ms) == pos + q);
}

/// The quality on air is guessed to be that of the last upload up to where the head is
/// taken to be.
pub proof fn law_the_guess_goes_by_the_last_upload(
    shared: Shared,
    guess: SeqNo,
    quality: Option<QualityEstimate>,
    seq: SeqNo,
)
    requires
        shared.is_estimate(guess, quality),
        shared.history.contains_key(seq),
        seq <= guess,
        forall|s: SeqNo| #[trigger] shared.history.contains_key(s) && s <= guess ==> s <= seq,
    ensures
        quality == Some(
            QualityEstimate { rung: shared.history[seq], seq: guess, estimated: true },
        ),
{
    let s = choose|s: SeqNo|
        #[trigger] is_last_key_up_to(shared.history, guess, s) && shared.history[s]
            == quality->0.rung;
    assert(is_last_key_up_to(shared.history, guess, s));
    assert(s == seq);
}

/// The log keeps its cap, drops its oldest line first, and ends in the newest.
pub proof fn law_log_is_capped(log: Seq<LogEntry>, entry: LogEntry)
    requires
        log.len() <= LOG_CAP,
    ensures
        logged(log, entry).len() <= 200,
        logged(log, entry).last() == entry,
        log.len() == LOG_CAP ==> logged(log, entry).drop_last() == log.drop_first(),
        log.len() < LOG_CAP ==> logged(log, entry).drop_last() == log,
{
    assert(logged(log, entry).drop_last() =~= (if log.len() < LOG_CAP {
        log
    } else {
        log.drop_first()
    }));
}

/// Once the server has been quiet for too long, plans are made as if nothing were
/// known of it.
pub proof fn law_old_news_are_no_news(server: ServerState)
    requires
        says_nothing(server),
    ensures
        scheduler::is_unknown(&server),
{
}

/// Who reads a copy of what the server said reads what it said: position, buffer and every
/// segment's best rung.
pub proof fn law_a_copy_says_the_same(a: ServerState, b: ServerState, i: int)
    requires
        same_state(a, b),
    ensures
        a.rev == b.rev && a.live_seq == b.live_seq && a.dvr_start_seq == b.dvr_start_seq,
        a.playout == b.playout,
        a.frontier_seq == b.frontier_seq && a.lead_ms == b.lead_ms && a.buffered_ms == b.buffered_ms,
        a.water == b.water && a.stale_session == b.stale_session,
        a.coverage@.len() == b.coverage@.len(),
        0 <= i < b.coverage@.len() ==> a.coverage@[i] == b.coverage@[i],
{
}

} // verus!
