//! What the server makes of commands and queries of the web remote.

use vstd::prelude::*;

use crate::control::{
    ControlStatus, LinkHealth, LogEntry, PlayoutCommand, PlayoutPosition,
};
use crate::ingest::{self, ApiError, HeaderText};
use crate::playout::EngineCommand;
use crate::state::{EncoderState, SeqNo, ServerState};
use crate::store::{self, DvrStore};

verus! {

/// A stream counts as connected for this long after its last upload.
pub const STALE_AFTER_MS: u64 = 5_000;

/// Range of a waveform query.
#[derive(Clone, Copy, Debug, PartialEq, Eq, Structural)]
pub struct WaveformQuery {
    pub start_seq: Option<SeqNo>,
    pub end_seq: Option<SeqNo>,
}

/// Checks the credential of a command. It is another one than that of uploads.
pub fn check_control_auth(expected: Option<&str>, got: HeaderText) -> (res: Result<(), ApiError>)
    ensures
        res is Ok <==> ingest::authorized(expected, got),
        res matches Err(e) ==> ingest::is_error(e, 401, "invalid or missing X-Auth"@),
{
    ingest::check_auth(expected, got)
}

/// The segment, and the offset into it, that is `ms` behind the end of `live`,
/// in a window of segments of `seg_ms` each that begins with `start`.
pub open spec fn millis_behind(start: SeqNo, live: SeqNo, seg_ms: u32, ms: u64) -> (SeqNo, u32) {
    let span = (live - start + 1) * seg_ms;
    if ms == 0 {
        (live, 0)
    } else if ms >= span {
        (start, 0)
    } else {
        (
            (start + (span - ms) / seg_ms as int) as u64,
            ((span - ms) % seg_ms as int) as u32,
        )
    }
}

/// The segment, and the offset into it, that is `ms` behind the end of `live`.
pub fn resolve_millis_behind_live(start: SeqNo, live: SeqNo, seg_ms: u32, ms: u64) -> (pos: (
    SeqNo,
    u32,
))
    requires
        start <= live,
        seg_ms >= 1,
    ensures
        pos == millis_behind(start, live, seg_ms, ms),
        start <= pos.0 <= live,
        pos.1 < seg_ms,
{
    let segs: u128 = (live - start) as u128 + 1;
    proof {
        let n = segs as int;
        let g = seg_ms as int;
        assert(0 < n * g <= 0x1_0000_0000_0000_0000 * 0xffff_ffff) by (nonlinear_arith)
            requires
                1 <= n <= 0x1_0000_0000_0000_0000,
                1 <= g <= 0xffff_ffff,
        ;
    }
    let span: u128 = segs * seg_ms as u128;
    if ms == 0 {
        return (live, 0);
    }
    if ms as u128 >= span {
        return (start, 0);
    }
    let instant: u128 = span - ms as u128;
    proof {
        let n = segs as int;
        let g = seg_ms as int;
        let t = instant as int;
        assert(0 <= t / g < n && 0 <= t % g < g) by (nonlinear_arith)
            requires
                0 <= t < n * g,
                g >= 1,
        ;
    }
    let offset: u128 = instant / seg_ms as u128;
    let skip: u128 = instant % seg_ms as u128;
    (start + offset as u64, skip as u32)
}

/// A segment number brought into the window.
pub open spec fn clamped(seq: int, start: SeqNo, live: SeqNo) -> SeqNo {
    if seq < start {
        start
    } else if seq > live {
        live
    } else {
        seq as u64
    }
}

/// Where a position lands in the window from `start` to `live`.
pub open spec fn landing(pos: PlayoutPosition, start: SeqNo, live: SeqNo, seg_ms: u32) -> (
    SeqNo,
    u32,
) {
    match pos {
        PlayoutPosition::Live => (live, 0),
        PlayoutPosition::Segment(seq) => (clamped(seq as int, start, live), 0),
        PlayoutPosition::SecondsBehindLive(secs) => (
            clamped(live - secs * 1000 / seg_ms as int, start, live),
            0,
        ),
        PlayoutPosition::MillisBehindLive(ms) => millis_behind(start, live, seg_ms, ms),
    }
}

/// Length of a segment of the store, at least 1 ms.
pub open spec fn segment_len(s: &DvrStore) -> u32 {
    if s.profile_of().segment_ms == 0 {
        1
    } else {
        s.profile_of().segment_ms
    }
}

/// Where a position lands in the DVR window. There is no place to land before
/// the first segment has arrived.
pub fn resolve_position(s: &DvrStore, pos: PlayoutPosition) -> (res: Result<(SeqNo, u32), ApiError>)
    ensures
        store::newest(s.held()) is None <==> res is Err,
        res matches Err(e) ==> ingest::is_error(e, 409, "no segments buffered yet"@),
        res matches Ok(to) ==> to == landing(
            pos,
            store::oldest(s.held())->0,
            store::newest(s.held())->0,
            segment_len(s),
        ) && store::is_oldest(s.held(), store::oldest(s.held())->0) && store::is_newest(
            s.held(),
            store::newest(s.held())->0,
        ),
{
    let live: SeqNo = match s.live_seq() {
        Some(live) => live,
        None => {
            return Err(ApiError(409, "no segments buffered yet".to_owned()));
        },
    };
    let start: SeqNo = match s.dvr_start_seq() {
        Some(start) => start,
        None => live,
    };
    let seg_ms: u32 = if s.profile().segment_ms == 0 {
        1
    } else {
        s.profile().segment_ms
    };
    assert(start <= live);
    let to: (SeqNo, u32) = match pos {
        PlayoutPosition::Live => (live, 0),
        PlayoutPosition::Segment(seq) => (clamp_seq(seq, start, live), 0),
        PlayoutPosition::SecondsBehindLive(secs) => {
            let back: u64 = secs as u64 * 1000 / seg_ms as u64;
            (clamp_seq(live.saturating_sub(back), start, live), 0)
        },
        PlayoutPosition::MillisBehindLive(ms) => resolve_millis_behind_live(
            start,
            live,
            seg_ms,
            ms,
        ),
    };
    Ok(to)
}

/// Brings a segment number into the window.
fn clamp_seq(seq: SeqNo, start: SeqNo, live: SeqNo) -> (c: SeqNo)
    ensures
        c == clamped(seq as int, start, live),
{
    if seq < start {
        start
    } else if seq > live {
        live
    } else {
        seq
    }
}

/// The position that a command asks to be resolved.
pub open spec fn asked_position(cmd: PlayoutCommand) -> Option<PlayoutPosition> {
    match cmd {
        PlayoutCommand::Start { position } => Some(position),
        PlayoutCommand::Seek { position } => Some(position),
        PlayoutCommand::GoLive => Some(PlayoutPosition::Live),
        _ => None,
    }
}

/// What the engine is told, with the position that was asked for resolved.
pub open spec fn engine_command(cmd: PlayoutCommand, to: (SeqNo, u32)) -> Option<EngineCommand> {
    match cmd {
        PlayoutCommand::Start { position } => Some(
            EngineCommand::Start { position: to.0, skip_ms: to.1 },
        ),
        PlayoutCommand::Stop => Some(EngineCommand::Stop),
        PlayoutCommand::Pause => Some(EngineCommand::Pause),
        PlayoutCommand::Resume => Some(EngineCommand::Resume),
        PlayoutCommand::Seek { position } => Some(
            EngineCommand::Seek { position: to.0, skip_ms: to.1 },
        ),
        PlayoutCommand::GoLive => Some(EngineCommand::Seek { position: to.0, skip_ms: to.1 }),
        PlayoutCommand::SetDevice { device_id } => None,
        PlayoutCommand::SetVolume { gain_millis } => Some(EngineCommand::SetVolume { gain_millis }),
        PlayoutCommand::SetTestTone { enabled } => Some(EngineCommand::SetTestTone { enabled }),
    }
}

/// A command of a web remote that has shown its credential.
pub struct AdmittedCommand {
    cmd: PlayoutCommand,
}

impl AdmittedCommand {
    /// The command.
    pub closed spec fn command(&self) -> PlayoutCommand {
        self.cmd
    }
}

/// Admits a command of the web remote, or refuses it. This comes first: without
/// the right credential no stream is set up and nothing reaches an engine.
pub fn admit_command(expected: Option<&str>, got: HeaderText, cmd: PlayoutCommand) -> (res: Result<
    AdmittedCommand,
    ApiError,
>)
    ensures
        res is Ok <==> ingest::authorized(expected, got),
        res matches Ok(admitted) ==> admitted.command() == cmd,
        res matches Err(e) ==> ingest::is_error(e, 401, "invalid or missing X-Auth"@),
{
    match check_control_auth(expected, got) {
        Ok(()) => Ok(AdmittedCommand { cmd }),
        Err(e) => Err(e),
    }
}

/// What the engine is told on a command of the web remote.
pub fn set_playout(s: &DvrStore, admitted: &AdmittedCommand) -> (res: Result<EngineCommand, ApiError>)
    ensures
        ({
            let cmd = admitted.command();
            &&& cmd is SetDevice ==> res is Err && ingest::is_error(
                res->Err_0,
                501,
                "device selection not implemented; playout uses the system default output"@,
            )
            &&& asked_position(cmd) is Some && store::newest(s.held()) is None ==> res is Err
                && ingest::is_error(res->Err_0, 409, "no segments buffered yet"@)
            &&& asked_position(cmd) is Some && store::newest(s.held()) is Some ==> res is Ok
                && engine_command(
                cmd,
                landing(
                    asked_position(cmd)->0,
                    store::oldest(s.held())->0,
                    store::newest(s.held())->0,
                    segment_len(s),
                ),
            ) == Some(res->Ok_0)
            &&& asked_position(cmd) is None && !(cmd is SetDevice) ==> res is Ok && engine_command(
                cmd,
                (0, 0),
            ) == Some(res->Ok_0)
        }),
{
    match &admitted.cmd {
        PlayoutCommand::Start { position } => match resolve_position(s, *position) {
            Ok((position, skip_ms)) => Ok(EngineCommand::Start { position, skip_ms }),
            Err(e) => Err(e),
        },
        PlayoutCommand::Stop => Ok(EngineCommand::Stop),
        PlayoutCommand::Pause => Ok(EngineCommand::Pause),
        PlayoutCommand::Resume => Ok(EngineCommand::Resume),
        PlayoutCommand::Seek { position } => match resolve_position(s, *position) {
            Ok((position, skip_ms)) => Ok(EngineCommand::Seek { position, skip_ms }),
            Err(e) => Err(e),
        },
        PlayoutCommand::GoLive => match resolve_position(s, PlayoutPosition::Live) {
            Ok((position, skip_ms)) => Ok(EngineCommand::Seek { position, skip_ms }),
            Err(e) => Err(e),
        },
        PlayoutCommand::SetVolume { gain_millis } => Ok(
            EngineCommand::SetVolume { gain_millis: *gain_millis },
        ),
        PlayoutCommand::SetTestTone { enabled } => Ok(
            EngineCommand::SetTestTone { enabled: *enabled },
        ),
        PlayoutCommand::SetDevice { .. } => Err(
            ApiError(
                501,
                "device selection not implemented; playout uses the system default output".to_owned(),
            ),
        ),
    }
}

/// The stream has had an upload recently.
pub fn is_live(last_ingest_age_ms: Option<u64>) -> (live: bool)
    ensures
        live == (last_ingest_age_ms matches Some(age) && age < STALE_AFTER_MS),
        live ==> last_ingest_age_ms is Some && last_ingest_age_ms->0 < 5_000,
        last_ingest_age_ms matches Some(age) && age < 5_000 ==> live,
{
    match last_ingest_age_ms {
        Some(age) => age < STALE_AFTER_MS,
        None => false,
    }
}

/// Health of the link.
pub open spec fn health(
    server: ServerState,
    encoder: Option<EncoderState>,
    last_ingest_age_ms: Option<u64>,
    gaps: u32,
) -> LinkHealth {
    LinkHealth {
        connected: last_ingest_age_ms matches Some(age) && age < STALE_AFTER_MS,
        last_segment_age_ms: match last_ingest_age_ms {
            Some(age) => store::clamp_u32(age as int),
            None => u32::MAX,
        },
        current_rung: server.playout.playing_rung,
        throughput_kbps: match encoder {
            Some(e) => e.throughput_kbps,
            None => 0,
        },
        gaps,
    }
}

/// The snapshot that a web client renders. The current rung is the one that the
/// engine has fed for the audible segment; gaps are the permanent ones in the DVR
/// window of the store.
pub fn build_status(
    stream: String,
    s: &DvrStore,
    server: ServerState,
    encoder: Option<EncoderState>,
    last_ingest_age_ms: Option<u64>,
    recent_log: Vec<LogEntry>,
) -> (status: ControlStatus)
    requires
        s.wf(),
    ensures
        status.stream == stream,
        status.server == server,
        status.encoder == encoder,
        status.link == health(server, encoder, last_ingest_age_ms, s.gap_total()),
        status.recent_log == recent_log,
{
    let last_segment_age_ms: u32 = match last_ingest_age_ms {
        Some(age) => if age > u32::MAX as u64 {
            u32::MAX
        } else {
            age as u32
        },
        None => u32::MAX,
    };
    let throughput_kbps: u32 = match &encoder {
        Some(e) => e.throughput_kbps,
        None => 0,
    };
    let link = LinkHealth {
        connected: is_live(last_ingest_age_ms),
        last_segment_age_ms,
        current_rung: server.playout.playing_rung,
        throughput_kbps,
        gaps: s.permanent_gaps(),
    };
    ControlStatus { stream, server, encoder, link, recent_log }
}

/// The position to report to a web client that was last told another one.
pub fn position_event(last: Option<SeqNo>, now: Option<SeqNo>) -> (event: Option<SeqNo>)
    ensures
        event == (if now == last {
            None
        } else {
            now
        }),
{
    match now {
        Some(seq) => match last {
            Some(before) => if before == seq {
                None
            } else {
                Some(seq)
            },
            None => Some(seq),
        },
        None => None,
    }
}

/// The segments that a waveform query covers: those asked for, by default the
/// DVR window.
pub fn waveform_range(s: &DvrStore, query: WaveformQuery) -> (res: Result<(SeqNo, SeqNo), ApiError>)
    ensures
        ({
            let start = match query.start_seq {
                Some(seq) => seq,
                None => match store::oldest(s.held()) {
                    Some(seq) => seq,
                    None => 0,
                },
            };
            let end = match query.end_seq {
                Some(seq) => seq,
                None => match store::newest(s.held()) {
                    Some(seq) => seq,
                    None => 0,
                },
            };
            &&& end < start ==> res is Err && ingest::is_error(
                res->Err_0,
                400,
                "end_seq must be >= start_seq"@,
            )
            &&& start <= end ==> res == Ok::<(SeqNo, SeqNo), ApiError>((start, end))
        }),
{
    let start: SeqNo = match query.start_seq {
        Some(seq) => seq,
        None => match s.dvr_start_seq() {
            Some(seq) => seq,
            None => 0,
        },
    };
    let end: SeqNo = match query.end_seq {
        Some(seq) => seq,
        None => match s.live_seq() {
            Some(seq) => seq,
            None => 0,
        },
    };
    if end < start {
        Err(ApiError(400, "end_seq must be >= start_seq".to_owned()))
    } else {
        Ok((start, end))
    }
}

/// A position always lands inside the DVR window, and before the end of the
/// segment that it lands in.
pub proof fn law_positions_land_in_the_window(
    pos: PlayoutPosition,
    start: SeqNo,
    live: SeqNo,
    seg_ms: u32,
)
    requires
        start <= live,
        seg_ms >= 1,
    ensures
        start <= landing(pos, start, live, seg_ms).0 <= live,
        landing(pos, start, live, seg_ms).1 < seg_ms,
{
    if let PlayoutPosition::MillisBehindLive(ms) = pos {
        let n = live - start + 1;
        let g = seg_ms as int;
        let t = n * g - ms;
        if 0 < ms < n * g {
            assert(0 <= t / g < n && 0 <= t % g < g) by (nonlinear_arith)
                requires
                    0 <= t < n * g,
                    g >= 1,
            ;
        }
    }
}

/// Within the window, a position in milliseconds lands exactly that far behind
/// the end of the live segment.
pub proof fn law_millis_behind_live_is_exact(start: SeqNo, live: SeqNo, seg_ms: u32, ms: u64)
    requires
        start <= live,
        seg_ms >= 1,
        0 < ms <= (live - start + 1) * seg_ms,
    ensures
        ({
            let to = millis_behind(start, live, seg_ms, ms);
            (live + 1 - to.0) * seg_ms - to.1 == ms
        }),
{
    let n = live - start + 1;
    let g = seg_ms as int;
    let t = n * g - ms;
    if ms < n * g {
        assert(0 <= t / g < n && 0 <= t % g < g && t == g * (t / g) + t % g) by (nonlinear_arith)
            requires
                0 <= t < n * g,
                g >= 1,
        ;
        assert((n - t / g) * g == n * g - g * (t / g)) by (nonlinear_arith);
        assert(live + 1 - (start + t / g) == n - t / g);
    }
}

/// What a request for a stream by name leads to.
#[derive(Clone, Copy, Debug, PartialEq, Eq, Structural)]
pub enum StreamLookup {
    /// The stream that is there.
    Known,
    /// A stream is set up.
    SetUp,
    /// There is no such stream.
    Unknown,
}

/// What a request for a stream leads to. Only an upload sets up a stream that
/// has never been heard of; a request that only reads does so for a show that is
/// on disk.
pub fn look_up_stream(in_memory: bool, on_disk: bool, is_upload: bool) -> (lookup: StreamLookup)
    ensures
        lookup == StreamLookup::Known <==> in_memory,
        lookup == StreamLookup::SetUp <==> !in_memory && (on_disk || is_upload),
        lookup == StreamLookup::Unknown <==> !in_memory && !on_disk && !is_upload,
{
    if in_memory {
        StreamLookup::Known
    } else if on_disk || is_upload {
        StreamLookup::SetUp
    } else {
        StreamLookup::Unknown
    }
}

} // verus!
