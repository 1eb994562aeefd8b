//! What holds of the commands of the web remote.

use vstd::prelude::*;

use crate::api;
use crate::control::{PlayoutCommand, PlayoutPosition};
use crate::ingest::{self, HeaderText};
use crate::playout::EngineCommand;
use crate::state::{EncoderState, SeqNo, ServerState};
use crate::store::{self, DvrStore};

verus! {

/// What [`api::set_playout`] tells the engine on a command, with something to play in
/// the store.
pub open spec fn told(s: &DvrStore, cmd: PlayoutCommand) -> Option<EngineCommand> {
    api::engine_command(
        cmd,
        match api::asked_position(cmd) {
            Some(pos) => api::landing(
                pos,
                store::oldest(s.held())->0,
                store::newest(s.held())->0,
                api::segment_len(s),
            ),
            None => (0, 0),
        },
    )
}

/// The engine is told to start, or to jump, to a place `skip_ms` into a segment, as the
/// command says.
pub open spec fn goes_to(cmd: PlayoutCommand, told: Option<EngineCommand>, seq: int, skip_ms: int) -> bool {
    match told {
        Some(EngineCommand::Start { position, skip_ms: skip }) => cmd is Start && position == seq
            && skip == skip_ms,
        Some(EngineCommand::Seek { position, skip_ms: skip }) => !(cmd is Start) && position == seq
            && skip == skip_ms,
        _ => false,
    }
}

/// The window of a store runs from `start` to `live`.
pub open spec fn window_is(s: &DvrStore, start: SeqNo, live: SeqNo) -> bool {
    store::is_oldest(s.held(), start) && store::is_newest(s.held(), live)
}

proof fn lemma_window(s: &DvrStore, start: SeqNo, live: SeqNo)
    requires
        window_is(s, start, live),
    ensures
        store::oldest(s.held()) == Some(start),
        store::newest(s.held()) == Some(live),
        start <= live,
{
    let a = choose|x: SeqNo| store::is_oldest(s.held(), x);
    let b = choose|x: SeqNo| store::is_newest(s.held(), x);
    store::lemma_ends_unique(s.held(), start, a);
    store::lemma_ends_unique(s.held(), live, b);
}

/// A start and a jump to a place so many milliseconds behind the end of the live segment
/// land exactly there: what lies between that place and that end is what was asked for.
pub proof fn law_a_command_lands_to_the_millisecond(
    s: &DvrStore,
    cmd: PlayoutCommand,
    start: SeqNo,
    live: SeqNo,
    ms: u64,
)
    requires
        window_is(s, start, live),
        s.profile_of().segment_ms > 0,
        0 < ms <= (live + 1 - start) * s.profile_of().segment_ms,
        cmd == (PlayoutCommand::Start { position: PlayoutPosition::MillisBehindLive(ms) }) || cmd
            == (PlayoutCommand::Seek { position: PlayoutPosition::MillisBehindLive(ms) }),
    ensures
        match told(s, cmd) {
            Some(EngineCommand::Start { position, skip_ms }) => {
                &&& cmd is Start
                &&& (live + 1 - position) * s.profile_of().segment_ms - skip_ms == ms
                &&& start <= position <= live
                &&& skip_ms < s.profile_of().segment_ms
            },
            Some(EngineCommand::Seek { position, skip_ms }) => {
                &&& cmd is Seek
                &&& (live + 1 - position) * s.profile_of().segment_ms - skip_ms == ms
                &&& start <= position <= live
                &&& skip_ms < s.profile_of().segment_ms
            },
            _ => false,
        },
{
    lemma_window(s, start, live);
    let g = s.profile_of().segment_ms;
    api::law_millis_behind_live_is_exact(start, live, g, ms);
    api::law_positions_land_in_the_window(PlayoutPosition::MillisBehindLive(ms), start, live, g);
}

/// A start is told as a start and a jump as a jump, at some place of the window; every
/// other command is told as what it is. Only the choice of a device is not told.
pub proof fn law_commands_are_told_as_what_they_are(
    s: &DvrStore,
    cmd: PlayoutCommand,
    start: SeqNo,
    live: SeqNo,
)
    requires
        window_is(s, start, live),
        s.profile_of().segment_ms > 0,
    ensures
        cmd is Start || cmd is Seek || cmd is GoLive ==> exists|seq: int, skip: int|
            start <= seq <= live && 0 <= skip < s.profile_of().segment_ms && #[trigger] goes_to(
                cmd,
                told(s, cmd),
                seq,
                skip,
            ),
        cmd is Stop <==> told(s, cmd) == Some(EngineCommand::Stop),
        cmd is Pause <==> told(s, cmd) == Some(EngineCommand::Pause),
        cmd is Resume <==> told(s, cmd) == Some(EngineCommand::Resume),
        cmd matches PlayoutCommand::SetVolume { gain_millis } ==> told(s, cmd) == Some(
            EngineCommand::SetVolume { gain_millis },
        ),
        cmd matches PlayoutCommand::SetTestTone { enabled } ==> told(s, cmd) == Some(
            EngineCommand::SetTestTone { enabled },
        ),
        cmd is SetDevice <==> told(s, cmd) is None,
{
    lemma_window(s, start, live);
    if let Some(pos) = api::asked_position(cmd) {
        let g = s.profile_of().segment_ms;
        api::law_positions_land_in_the_window(pos, start, live, g);
        let to = api::landing(pos, start, live, g);
        assert(goes_to(cmd, told(s, cmd), to.0 as int, to.1 as int));
    }
}

/// Going live is a jump to the start of the newest segment, and so are a start and a
/// jump that ask for the live edge.
pub proof fn law_going_live_jumps_to_the_newest_segment(
    s: &DvrStore,
    cmd: PlayoutCommand,
    start: SeqNo,
    live: SeqNo,
)
    requires
        window_is(s, start, live),
        cmd is GoLive || cmd == (PlayoutCommand::Start { position: PlayoutPosition::Live }) || cmd
            == (PlayoutCommand::Seek { position: PlayoutPosition::Live }),
    ensures
        goes_to(cmd, told(s, cmd), live as int, 0),
{
    lemma_window(s, start, live);
}

/// A start and a jump to a segment of the window go to the start of that segment; one
/// that is out of the window goes to the nearest end of it.
pub proof fn law_a_segment_is_reached_or_its_nearest(
    s: &DvrStore,
    cmd: PlayoutCommand,
    start: SeqNo,
    live: SeqNo,
    seq: SeqNo,
)
    requires
        window_is(s, start, live),
        cmd == (PlayoutCommand::Start { position: PlayoutPosition::Segment(seq) }) || cmd == (
        PlayoutCommand::Seek { position: PlayoutPosition::Segment(seq) }),
    ensures
        start <= seq <= live ==> goes_to(cmd, told(s, cmd), seq as int, 0),
        seq < start ==> goes_to(cmd, told(s, cmd), start as int, 0),
        seq > live ==> goes_to(cmd, told(s, cmd), live as int, 0),
{
    lemma_window(s, start, live);
}

/// A start and a jump to a place so many seconds behind the live segment go to the start
/// of the segment in which that place lies, counted back from the start of the live one;
/// one that reaches back past the window goes to its oldest segment.
pub proof fn law_seconds_behind_live_name_a_segment(
    s: &DvrStore,
    cmd: PlayoutCommand,
    start: SeqNo,
    live: SeqNo,
    secs: u32,
    position: SeqNo,
)
    requires
        window_is(s, start, live),
        s.profile_of().segment_ms > 0,
        cmd == (PlayoutCommand::Start { position: PlayoutPosition::SecondsBehindLive(secs) })
            || cmd == (PlayoutCommand::Seek {
            position: PlayoutPosition::SecondsBehindLive(secs),
        }),
        start <= position <= live,
    ensures
        (live - position) * s.profile_of().segment_ms <= secs * 1000 && secs * 1000 < (live
            - position + 1) * s.profile_of().segment_ms ==> goes_to(
            cmd,
            told(s, cmd),
            position as int,
            0,
        ),
        (live - start) * s.profile_of().segment_ms <= secs * 1000 ==> goes_to(
            cmd,
            told(s, cmd),
            start as int,
            0,
        ),
{
    lemma_window(s, start, live);
    let g = s.profile_of().segment_ms as int;
    let t = secs * 1000;
    let q = t / g;
    assert(q * g <= t < (q + 1) * g) by (nonlinear_arith)
        requires
            g > 0,
            t >= 0,
            q == t / g,
    ;
    if (live - position) * g <= t && t < (live - position + 1) * g {
        let d = live - position;
        assert(d == q) by (nonlinear_arith)
            requires
                d * g <= t < (d + 1) * g,
                q * g <= t < (q + 1) * g,
                g > 0,
        ;
    }
    if (live - start) * g <= t {
        let d = live - start;
        assert(d <= q) by (nonlinear_arith)
            requires
                d * g <= t < (q + 1) * g,
                g > 0,
        ;
    }
}

/// A credential that is asked for must be there, to the letter: two different ones are
/// never both accepted, and a request without one is not.
pub proof fn law_only_the_credential_is_accepted(expected: &str, got: HeaderText, other: HeaderText)
    ensures
        ingest::authorized(Some(expected), HeaderText::Text(expected)),
        !ingest::authorized(Some(expected), HeaderText::Missing),
        !ingest::authorized(Some(expected), HeaderText::NotText),
        (got matches HeaderText::Text(a) && other matches HeaderText::Text(b) && a@ != b@) ==> !(
        ingest::authorized(Some(expected), got) && ingest::authorized(Some(expected), other)),
        ingest::authorized(None, got),
{
}

/// A stream counts as connected for five seconds after an upload and not longer; the age
/// that is shown is the true one as far as a `u32` holds it, and the longest there is
/// where there was no upload.
pub proof fn law_the_link_is_up_for_five_seconds(
    server: ServerState,
    encoder: Option<EncoderState>,
    age_ms: Option<u64>,
    gaps: u32,
)
    ensures
        ({
            let link = api::health(server, encoder, age_ms, gaps);
            &&& link.connected <==> age_ms is Some && age_ms->0 < 5_000
            &&& link.connected ==> link.last_segment_age_ms == age_ms->0
            &&& age_ms is None ==> link.last_segment_age_ms == u32::MAX
            &&& age_ms is Some ==> link.last_segment_age_ms == age_ms->0
                || link.last_segment_age_ms == u32::MAX && age_ms->0 > u32::MAX
            &&& link.current_rung == server.playout.playing_rung
            &&& link.gaps == gaps
            &&& encoder matches Some(e) ==> link.throughput_kbps == e.throughput_kbps
            &&& encoder is None ==> link.throughput_kbps == 0
        }),
{
}

/// No time at all behind live is the newest segment, and more than the window holds is the
/// start of the oldest one.
pub proof fn law_the_ends_of_the_window_are_reached(
    s: &DvrStore,
    cmd: PlayoutCommand,
    start: SeqNo,
    live: SeqNo,
    ms: u64,
)
    requires
        window_is(s, start, live),
        s.profile_of().segment_ms > 0,
        cmd == (PlayoutCommand::Start { position: PlayoutPosition::MillisBehindLive(ms) }) || cmd
            == (PlayoutCommand::Seek { position: PlayoutPosition::MillisBehindLive(ms) }),
    ensures
        ms == 0 ==> goes_to(cmd, told(s, cmd), live as int, 0),
        ms >= (live + 1 - start) * s.profile_of().segment_ms ==> goes_to(
            cmd,
            told(s, cmd),
            start as int,
            0,
        ),
{
    lemma_window(s, start, live);
    let g = s.profile_of().segment_ms as int;
    assert((live + 1 - start) * g > 0) by (nonlinear_arith)
        requires
            live + 1 - start >= 1,
            g > 0,
    ;
}

} // verus!
