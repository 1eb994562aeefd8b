//! What the encoder's window shows: texts and readings.

use std::collections::VecDeque;
use vstd::prelude::*;

use crate::alarm::{self, buffer_estimate};
use crate::control::{LogEntry, LogLevel};
use crate::shared::QualityEstimate;
use crate::state::{self, PlayoutState, RungId, SegCoverage, SeqNo, ServerState, StreamProfile};
use crate::text::{self, push_decimal, push_padded};

verus! {

/// Samples of the rolling graphs: a minute's worth.
pub const HISTORY_LEN: usize = 60;

/// How often the graphs are sampled.
pub const HISTORY_SAMPLE_MS: u64 = 1_000;

/// A time of day, in UTC, as `HH:MM:SS`.
pub open spec fn clock_text(at_ms: u64) -> Seq<char> {
    let second = at_ms / 1000 % 86_400;
    text::decimal_padded((second / 3600) as nat, 2) + ":"@ + text::decimal_padded(
        (second % 3600 / 60) as nat,
        2,
    ) + ":"@ + text::decimal_padded((second % 60) as nat, 2)
}

/// A time of day, in UTC, as `HH:MM:SS`.
pub fn format_log_time(at_ms: u64) -> (time: String)
    ensures
        time@ == clock_text(at_ms),
{
    let second: u64 = at_ms / 1000 % 86_400;
    let mut time = "".to_owned();
    proof {
        reveal_strlit("");
    }
    push_padded(&mut time, second / 3600, 2);
    assert(time@ =~= text::decimal_padded((second / 3600) as nat, 2));
    time.append(":");
    push_padded(&mut time, second % 3600 / 60, 2);
    time.append(":");
    push_padded(&mut time, second % 60, 2);
    time
}

/// The tag of a level, five characters wide.
pub open spec fn tag_of(level: LogLevel) -> Seq<char> {
    match level {
        LogLevel::Error => "ERROR"@,
        LogLevel::Warn => "WARN "@,
        LogLevel::Info => "INFO "@,
    }
}

/// The tag of a level, five characters wide.
pub fn log_level_tag(level: LogLevel) -> (tag: &'static str)
    ensures
        tag@ == tag_of(level),
{
    match level {
        LogLevel::Error => "ERROR",
        LogLevel::Warn => "WARN ",
        LogLevel::Info => "INFO ",
    }
}

/// The last `cap` items of a list.
pub open spec fn last_of<T>(items: Seq<T>, cap: int) -> Seq<T> {
    if items.len() <= cap {
        items
    } else {
        items.skip(items.len() - cap)
    }
}

/// Appends a sample and drops the oldest ones beyond the cap.
pub fn push_capped<T>(history: &mut VecDeque<T>, value: T, cap: usize)
    ensures
        final(history)@ == last_of(old(history)@.push(value), cap as int),
{
    history.push_back(value);
    let ghost all = history@;
    while history.len() > cap
        invariant
            history@.len() <= all.len(),
            history@ == all.skip(all.len() - history@.len()),
            history@.len() >= cap || history@ == all,
        decreases history@.len(),
    {
        history.pop_front();
        assert(history@ =~= all.skip(all.len() - history@.len()));
    }
    assert(history@ =~= last_of(all, cap as int));
}

/// It is time to do again what was last done at a time.
pub fn is_due(last_ms: Option<u64>, now_ms: u64, every_ms: u64) -> (due: bool)
    ensures
        due == (last_ms matches Some(at) ==> now_ms >= at && now_ms - at >= every_ms),
{
    match last_ms {
        Some(at) => now_ms >= at && now_ms - at >= every_ms,
        None => true,
    }
}

/// The word for a playout state.
pub open spec fn state_word(state: PlayoutState) -> Seq<char> {
    match state {
        PlayoutState::Playing => "🟢 playing"@,
        PlayoutState::Paused => "🟡 paused"@,
        PlayoutState::Stopped => "⚪ stopped"@,
        PlayoutState::Stalled => "🟠 stalled"@,
        PlayoutState::Error => "🔴 error"@,
    }
}

/// The server's state in one line.
pub open spec fn status_text(state: ServerState) -> Seq<char> {
    "server: "@ + state_word(state.playout.state) + (match state.playout.detail {
        Some(detail) => " ("@ + detail@ + ")"@,
        None => Seq::empty(),
    }) + "   lead "@ + text::decimal(state.lead_ms as nat) + " ms"@ + (match state.live_seq {
        Some(seq) => "   live seq "@ + text::decimal(seq as nat),
        None => Seq::empty(),
    })
}

/// The server's state in one line.
pub fn server_status(state: &ServerState) -> (line: String)
    ensures
        line@ == status_text(*state),
{
    let mut line = "server: ".to_owned();
    line.append(
        match state.playout.state {
            PlayoutState::Playing => "🟢 playing",
            PlayoutState::Paused => "🟡 paused",
            PlayoutState::Stopped => "⚪ stopped",
            PlayoutState::Stalled => "🟠 stalled",
            PlayoutState::Error => "🔴 error",
        },
    );
    if let Some(detail) = &state.playout.detail {
        line.append(" (");
        line.append(detail.as_str());
        line.append(")");
    }
    line.append("   lead ");
    push_decimal(&mut line, state.lead_ms as u64);
    line.append(" ms");
    if let Some(seq) = state.live_seq {
        line.append("   live seq ");
        push_decimal(&mut line, seq);
    }
    assert(line@ =~= status_text(*state));
    line
}

/// What was uploaded last, in one line.
pub fn uploaded_label(last: Option<SeqNo>, kbps: u32) -> (line: Option<String>)
    ensures
        line is Some <==> last is Some,
        line matches Some(l) ==> l@ == "uploaded seq "@ + text::decimal(last->0 as nat) + " @ "@
            + text::decimal(kbps as nat) + " kbps"@,
{
    match last {
        Some(seq) => {
            let mut line = "uploaded seq ".to_owned();
            push_decimal(&mut line, seq);
            line.append(" @ ");
            push_decimal(&mut line, kbps as u64);
            line.append(" kbps");
            Some(line)
        },
        None => None,
    }
}

/// The latest log line for the status bar, unless it has been dismissed.
pub fn infobar(log_seq: u64, dismissed_seq: u64, latest: &Option<LogEntry>) -> (line: Option<
    (LogLevel, String),
>)
    ensures
        line is Some <==> log_seq > dismissed_seq && latest is Some,
        line matches Some((level, message)) ==> level == latest->0.level && message@ == tag_of(
            level,
        ) + " "@ + latest->0.message@,
{
    if log_seq <= dismissed_seq {
        return None;
    }
    match latest {
        Some(entry) => {
            let mut message = log_level_tag(entry.level).to_owned();
            message.append(" ");
            message.append(entry.message.as_str());
            Some((entry.level, message))
        },
        None => None,
    }
}

/// How well the buffer stands.
#[derive(Clone, Copy, Debug, PartialEq, Eq, Structural)]
pub enum BufferLevel {
    /// Below the level at which only the survival rung is sent.
    Low,
    /// Below the margin that is aimed for.
    Short,
    Good,
}

/// The buffer at the server.
#[derive(Clone, Copy, Debug, PartialEq, Eq, Structural)]
pub struct BufferReading {
    pub buffer_ms: u32,
    /// What counts as full; never 0.
    pub target_ms: u32,
    pub level: BufferLevel,
    /// The buffer fills up for playout to start on its own.
    pub auto_start_pending: bool,
    /// The server has been quiet for too long: the buffer is a guess.
    pub estimated: bool,
}

/// At least 1.
pub open spec fn at_least_one(ms: u32) -> u32 {
    if ms == 0 {
        1
    } else {
        ms
    }
}

/// The buffer at the server, from what it said some time ago.
pub fn buffer_reading(
    state: &ServerState,
    age_ms: u64,
    auto_start: bool,
    auto_start_secs: u32,
) -> (reading: BufferReading)
    requires
        auto_start ==> auto_start_secs * 1000 <= u32::MAX,
    ensures
        (reading.buffer_ms, reading.estimated) == alarm::estimate(*state, age_ms),
        reading.auto_start_pending == (auto_start && state.playout.state == PlayoutState::Stopped),
        reading.target_ms == (if reading.auto_start_pending {
            at_least_one((auto_start_secs * 1000) as u32)
        } else {
            at_least_one(state.water.high_ms)
        }),
        reading.level == (if reading.buffer_ms < state.water.low_ms {
            BufferLevel::Low
        } else if reading.buffer_ms < state.water.target_ms {
            BufferLevel::Short
        } else {
            BufferLevel::Good
        }),
        reading.level == BufferLevel::Good ==> reading.buffer_ms >= state.water.low_ms
            && reading.buffer_ms >= state.water.target_ms,
        reading.level == BufferLevel::Low <==> reading.buffer_ms < state.water.low_ms,
        reading.target_ms >= 1,
{
    let (buffer_ms, estimated) = buffer_estimate(state, age_ms);
    let auto_start_pending = auto_start && state.playout.state == PlayoutState::Stopped;
    let full: u32 = if auto_start_pending {
        auto_start_secs * 1000
    } else {
        state.water.high_ms
    };
    BufferReading {
        buffer_ms,
        target_ms: if full == 0 {
            1
        } else {
            full
        },
        level: if buffer_ms < state.water.low_ms {
            BufferLevel::Low
        } else if buffer_ms < state.water.target_ms {
            BufferLevel::Short
        } else {
            BufferLevel::Good
        },
        auto_start_pending,
        estimated,
    }
}

/// Segments among the first `n` that the server holds at a rung; at any rung,
/// where none is named.
pub open spec fn held_count(coverage: Seq<SegCoverage>, rung: Option<RungId>, n: int) -> int
    decreases n,
{
    if n <= 0 {
        0
    } else {
        held_count(coverage, rung, n - 1) + (if coverage[n - 1].best_rung is Some && (rung is None
            || coverage[n - 1].best_rung == rung) {
            1int
        } else {
            0
        })
    }
}

/// Segments that the server holds at a rung; at any rung, where none is named.
fn count_held(coverage: &Vec<SegCoverage>, rung: Option<RungId>) -> (count: usize)
    ensures
        count == held_count(coverage@, rung, coverage@.len() as int),
{
    let mut count: usize = 0;
    let mut i: usize = 0;
    while i < coverage.len()
        invariant
            i <= coverage@.len(),
            count <= i,
            count == held_count(coverage@, rung, i as int),
        decreases coverage@.len() - i,
    {
        if let Some(best) = coverage[i].best_rung {
            let counts = match rung {
                Some(r) => best == r,
                None => true,
            };
            if counts {
                count = count + 1;
            }
        }
        i = i + 1;
    }
    count
}

/// How many of the segments ahead the server holds, and how many of them at each
/// rung of the ladder. Gaps count nowhere.
pub fn rung_counts(coverage: &Vec<SegCoverage>, profile: &StreamProfile) -> (counts: (
    usize,
    Vec<usize>,
))
    ensures
        counts.0 == held_count(coverage@, None, coverage@.len() as int),
        counts.1@.len() == profile.rungs@.len(),
        forall|i: int|
            0 <= i < profile.rungs@.len() ==> #[trigger] counts.1@[i] == held_count(
                coverage@,
                Some(profile.rungs@[i].id),
                coverage@.len() as int,
            ),
{
    let mut each: Vec<usize> = Vec::new();
    let mut i: usize = 0;
    while i < profile.rungs.len()
        invariant
            i <= profile.rungs@.len(),
            each@.len() == i,
            forall|k: int|
                0 <= k < i ==> #[trigger] each@[k] == held_count(
                    coverage@,
                    Some(profile.rungs@[k].id),
                    coverage@.len() as int,
                ),
        decreases profile.rungs@.len() - i,
    {
        each.push(count_held(coverage, Some(profile.rungs[i].id)));
        i = i + 1;
    }
    (count_held(coverage, None), each)
}

/// The quality that is on air.
pub fn quality_text(profile: &StreamProfile, quality: &Option<QualityEstimate>) -> (line: String)
    ensures
        line@ == (match *quality {
            Some(q) => if q.estimated {
                state::rung_name(profile.rungs@, q.rung) + " (estimated — link down)"@
            } else {
                state::rung_name(profile.rungs@, q.rung)
            },
            None => "(not playing)"@,
        }),
{
    match quality {
        Some(q) => {
            let mut line = profile.name_of(q.rung);
            if q.estimated {
                line.append(" (estimated — link down)");
            }
            line
        },
        None => "(not playing)".to_owned(),
    }
}

/// The header of the list of input channels, which are counted from 1.
pub fn channel_header(mono: bool, left: u16, right: u16) -> (header: String)
    ensures
        header@ == (if mono {
            "All Input Channels — source: "@ + text::decimal((left + 1) as nat)
        } else {
            "All Input Channels — L: "@ + text::decimal((left + 1) as nat) + "  R: "@
                + text::decimal((right + 1) as nat)
        }),
{
    if mono {
        let mut header = "All Input Channels — source: ".to_owned();
        push_decimal(&mut header, left as u64 + 1);
        header
    } else {
        let mut header = "All Input Channels — L: ".to_owned();
        push_decimal(&mut header, left as u64 + 1);
        header.append("  R: ");
        push_decimal(&mut header, right as u64 + 1);
        header
    }
}

/// A list that is kept at a cap holds the newest samples, in their order.
pub proof fn law_history_keeps_the_newest<T>(history: Seq<T>, value: T, cap: int)
    requires
        0 < cap,
        history.len() <= cap,
    ensures
        last_of(history.push(value), cap).len() <= cap,
        last_of(history.push(value), cap).last() == value,
        history.len() < cap ==> last_of(history.push(value), cap) == history.push(value),
        history.len() == cap ==> last_of(history.push(value), cap) == history.skip(1).push(value),
{
    if history.len() == cap {
        assert(last_of(history.push(value), cap) =~= history.skip(1).push(value));
    }
}

/// No more segments are held at one rung than are held at all.
pub proof fn law_shares_are_parts(coverage: Seq<SegCoverage>, rung: RungId, n: int)
    ensures
        0 <= held_count(coverage, Some(rung), n) <= held_count(coverage, None, n),
        n >= 0 ==> held_count(coverage, None, n) <= n,
    decreases n,
{
    if n > 0 {
        law_shares_are_parts(coverage, rung, n - 1);
    }
}

/// The clock shows hours, minutes and seconds since midnight, two digits each.
pub proof fn law_the_clock_counts_from_midnight(at_ms: u64)
    ensures
        exists|h: nat, m: nat, s: nat|
            {
                &&& h < 24 && m < 60 && s < 60
                &&& h * 3600 + m * 60 + s == at_ms / 1000 % 86_400
                &&& clock_text(at_ms) == #[trigger] text::decimal_padded(h, 2) + ":"@
                    + #[trigger] text::decimal_padded(m, 2) + ":"@ + #[trigger] text::decimal_padded(
                    s,
                    2,
                )
            },
{
    let second = (at_ms / 1000 % 86_400) as nat;
    let h = second / 3600;
    let m = second % 3600 / 60;
    let s = second % 60;
    assert(clock_text(at_ms) == text::decimal_padded(h, 2) + ":"@ + text::decimal_padded(m, 2)
        + ":"@ + text::decimal_padded(s, 2));
}

/// The status line says what playout does, how far the server is ahead, and the newest
/// segment; why, where that is known.
pub proof fn law_the_status_line_says_what_is_known(state: ServerState)
    ensures
        text::contains_text(status_text(state), state_word(state.playout.state)),
        text::contains_text(
            status_text(state),
            "lead "@ + text::decimal(state.lead_ms as nat) + " ms"@,
        ),
        state.live_seq matches Some(seq) ==> text::contains_text(
            status_text(state),
            "live seq "@ + text::decimal(seq as nat),
        ),
        state.playout.detail matches Some(detail) ==> text::contains_text(
            status_text(state),
            detail@,
        ),
{
    let line = status_text(state);
    let word = state_word(state.playout.state);
    let lead = text::decimal(state.lead_ms as nat);
    let why = match state.playout.detail {
        Some(detail) => " ("@ + detail@ + ")"@,
        None => Seq::empty(),
    };
    let before = "server: "@;
    let a = before.len() as int;
    assert(line.subrange(a, a + word.len()) =~= word);
    assert(text::stands_at(line, word, a));
    reveal_strlit("   lead ");
    reveal_strlit("lead ");
    let ahead = "lead "@ + lead + " ms"@;
    let b = a + word.len() + why.len() + 3;
    assert(line.subrange(b, b + ahead.len()) =~= ahead);
    assert(text::stands_at(line, ahead, b));
    if let Some(detail) = state.playout.detail {
        let d = a + word.len() + " ("@.len();
        assert(line.subrange(d, d + detail@.len()) =~= detail@);
        assert(text::stands_at(line, detail@, d));
    }
    if let Some(seq) = state.live_seq {
        reveal_strlit("   live seq ");
        reveal_strlit("live seq ");
        let newest = "live seq "@ + text::decimal(seq as nat);
        let c = b + ahead.len() + 3;
        assert(line.subrange(c, c + newest.len()) =~= newest);
        assert(text::stands_at(line, newest, c));
    }
}

/// Segments are counted under the best rung that the server holds of them, each once: those
/// at no rung are counted nowhere.
pub proof fn law_segments_count_under_their_best_rung(
    coverage: Seq<SegCoverage>,
    rung: RungId,
    n: int,
)
    requires
        0 <= n <= coverage.len(),
    ensures
        held_count(coverage, Some(rung), n) == coverage.take(n).filter(
            |c: SegCoverage| c.best_rung == Some(rung),
        ).len(),
        held_count(coverage, None, n) == coverage.take(n).filter(
            |c: SegCoverage| c.best_rung is Some,
        ).len(),
    decreases n,
{
    reveal(Seq::filter);
    if n > 0 {
        law_segments_count_under_their_best_rung(coverage, rung, n - 1);
        assert(coverage.take(n).drop_last() =~= coverage.take(n - 1));
    } else {
        assert(coverage.take(0) =~= Seq::<SegCoverage>::empty());
    }
}

/// Every level has a tag of its own, all of them equally wide.
pub proof fn law_tags_are_told_apart(a: LogLevel, b: LogLevel)
    ensures
        tag_of(a).len() == 5,
        tag_of(a) == tag_of(b) ==> a == b,
{
    reveal_strlit("ERROR");
    reveal_strlit("WARN ");
    reveal_strlit("INFO ");
    assert("ERROR"@[0] == 'E' && "WARN "@[0] == 'W' && "INFO "@[0] == 'I');
}

/// Every state of playout has a word of its own.
pub proof fn law_states_are_told_apart(a: PlayoutState, b: PlayoutState)
    requires
        state_word(a) == state_word(b),
    ensures
        a == b,
{
    reveal_strlit("🟢 playing");
    reveal_strlit("🟡 paused");
    reveal_strlit("⚪ stopped");
    reveal_strlit("🟠 stalled");
    reveal_strlit("🔴 error");
    let word = state_word(a);
    assert(word[0] == state_word(b)[0]);
}

} // verus!
