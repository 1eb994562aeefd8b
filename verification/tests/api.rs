//! The control API.

use obcast::api::{
    admit_command, build_status, check_control_auth, is_live, look_up_stream, position_event,
    resolve_millis_behind_live, resolve_position, set_playout, waveform_range, StreamLookup,
    WaveformQuery,
};
use obcast::control::{PlayoutCommand, PlayoutPosition};
use obcast::ingest::{ApiError, HeaderText};
use obcast::playout::EngineCommand;
use obcast::state::{PlayoutState, ServerState, StreamProfile, WaterLevels};
use obcast::store::DvrStore;

#[test]
fn millis_behind_live_zero_lands_exactly_on_the_live_edge() {
    assert_eq!(resolve_millis_behind_live(0, 10, 2000, 0), (10, 0));
}

#[test]
fn millis_behind_live_mid_segment_offset_within_the_live_segment() {
    assert_eq!(resolve_millis_behind_live(0, 10, 2000, 500), (10, 1500));
}

#[test]
fn millis_behind_live_exact_segment_boundary_has_no_skip() {
    assert_eq!(resolve_millis_behind_live(0, 10, 2000, 2000), (10, 0));
}

#[test]
fn millis_behind_live_partway_into_an_earlier_segment() {
    assert_eq!(resolve_millis_behind_live(0, 10, 2000, 2500), (9, 1500));
}

#[test]
fn millis_behind_live_beyond_the_dvr_window_clamps_to_start() {
    assert_eq!(resolve_millis_behind_live(5, 10, 2000, 1_000_000), (5, 0));
}

#[test]
fn millis_behind_live_single_segment_window() {
    assert_eq!(resolve_millis_behind_live(7, 7, 2000, 0), (7, 0));
    assert_eq!(resolve_millis_behind_live(7, 7, 2000, 500), (7, 1500));
    assert_eq!(resolve_millis_behind_live(7, 7, 2000, 5000), (7, 0));
}

fn store_with(seqs: &[u64]) -> DvrStore {
    let mut store = DvrStore::new(
        StreamProfile::default_ladder(2000),
        WaterLevels::default(),
        0,
        "/d".into(),
        7,
    );
    for seq in seqs {
        store.record(0, *seq, None);
    }
    store
}

fn send(store: &DvrStore, cmd: PlayoutCommand) -> Result<EngineCommand, ApiError> {
    set_playout(store, &admit_command(None, HeaderText::Missing, cmd)?)
}

fn start(position: PlayoutPosition) -> PlayoutCommand {
    PlayoutCommand::Start { position }
}

#[test]
fn positions_are_clamped_into_the_window() {
    let store = store_with(&[5, 6, 7, 8, 9, 10]);
    let at = |pos| resolve_position(&store, pos).unwrap();
    assert_eq!(at(PlayoutPosition::Live), (10, 0));
    assert_eq!(at(PlayoutPosition::Segment(7)), (7, 0));
    assert_eq!(at(PlayoutPosition::Segment(1)), (5, 0));
    assert_eq!(at(PlayoutPosition::Segment(99)), (10, 0));
    assert_eq!(at(PlayoutPosition::SecondsBehindLive(5)), (8, 0));
    assert_eq!(at(PlayoutPosition::SecondsBehindLive(u32::MAX)), (5, 0));
    assert_eq!(at(PlayoutPosition::MillisBehindLive(2_500)), (9, 1_500));
}

#[test]
fn an_empty_store_cannot_be_started() {
    let store = store_with(&[]);
    let refused = send(&store, start(PlayoutPosition::Live)).unwrap_err();
    assert_eq!(refused, ApiError(409, "no segments buffered yet".into()));
    assert!(send(&store, PlayoutCommand::GoLive).is_err());
    assert_eq!(
        send(&store, PlayoutCommand::Stop).unwrap(),
        EngineCommand::Stop
    );
}

#[test]
fn commands_reach_the_engine() {
    let store = store_with(&[5, 6, 7]);
    let sent = |cmd| send(&store, cmd).unwrap();
    assert_eq!(
        sent(start(PlayoutPosition::MillisBehindLive(500))),
        EngineCommand::Start {
            position: 7,
            skip_ms: 1_500
        }
    );
    assert_eq!(
        sent(PlayoutCommand::Seek {
            position: PlayoutPosition::Segment(6)
        }),
        EngineCommand::Seek {
            position: 6,
            skip_ms: 0
        }
    );
    assert_eq!(
        sent(PlayoutCommand::GoLive),
        EngineCommand::Seek {
            position: 7,
            skip_ms: 0
        }
    );
    assert_eq!(sent(PlayoutCommand::Pause), EngineCommand::Pause);
    assert_eq!(sent(PlayoutCommand::Resume), EngineCommand::Resume);
    assert_eq!(
        sent(PlayoutCommand::SetVolume { gain_millis: 5 }),
        EngineCommand::SetVolume { gain_millis: 5 }
    );
    assert_eq!(
        sent(PlayoutCommand::SetTestTone { enabled: true }),
        EngineCommand::SetTestTone { enabled: true }
    );
}

#[test]
fn devices_cannot_be_chosen() {
    let refused = send(
        &store_with(&[1]),
        PlayoutCommand::SetDevice {
            device_id: "x".into(),
        },
    )
    .unwrap_err();
    assert_eq!(refused.0, 501);
    assert_eq!(
        refused.1,
        "device selection not implemented; playout uses the system default output"
    );
}

#[test]
fn control_needs_its_own_token() {
    assert!(check_control_auth(None, HeaderText::Missing).is_ok());
    assert!(check_control_auth(Some("c"), HeaderText::Text("c")).is_ok());
    let refused = check_control_auth(Some("c"), HeaderText::Text("i")).unwrap_err();
    assert_eq!(refused, ApiError(401, "invalid or missing X-Auth".into()));
    assert!(check_control_auth(Some("c"), HeaderText::Missing).is_err());
    assert!(check_control_auth(Some("c"), HeaderText::NotText).is_err());
}

#[test]
fn a_status_shows_the_health_of_the_link() {
    let mut store = store_with(&[5, 9]);
    store.abandon(&[3, 6, 7, 9, 12]);
    let mut playout = ServerState::unknown().playout;
    playout.state = PlayoutState::Playing;
    playout.position_seq = Some(5);
    playout.playing_rung = Some(3);
    let server = store.build_server_state(playout);
    let status = build_status("show".into(), &store, server.clone(), None, Some(4_999), vec![]);
    assert_eq!(status.stream, "show");
    assert!(status.link.connected);
    assert_eq!(status.link.last_segment_age_ms, 4_999);
    assert_eq!(status.link.current_rung, Some(3));
    assert_eq!(status.link.gaps, 2);
    assert_eq!(status.link.throughput_kbps, 0);
    let quiet = build_status("show".into(), &store, server.clone(), None, Some(5_000), vec![]);
    assert!(!quiet.link.connected);
    let never = build_status("show".into(), &store, server, None, None, vec![]);
    assert!(!never.link.connected);
    assert_eq!(never.link.last_segment_age_ms, u32::MAX);
}

#[test]
fn a_stream_is_live_for_five_seconds() {
    assert!(is_live(Some(4_999)));
    assert!(!is_live(Some(5_000)));
    assert!(!is_live(None));
}

#[test]
fn positions_are_reported_when_they_change() {
    assert_eq!(position_event(Some(1), Some(2)), Some(2));
    assert_eq!(position_event(Some(2), Some(2)), None);
    assert_eq!(position_event(Some(2), None), None);
}

#[test]
fn a_waveform_covers_the_window() {
    let store = store_with(&[5, 9]);
    let range = |start_seq, end_seq| {
        waveform_range(
            &store,
            WaveformQuery { start_seq, end_seq },
        )
    };
    assert_eq!(range(None, None), Ok((5, 9)));
    assert_eq!(range(Some(6), Some(6)), Ok((6, 6)));
    assert_eq!(
        range(Some(7), Some(6)),
        Err(ApiError(400, "end_seq must be >= start_seq".into()))
    );
}

#[test]
fn only_uploads_set_up_a_new_stream() {
    assert_eq!(look_up_stream(true, false, false), StreamLookup::Known);
    assert_eq!(look_up_stream(false, true, false), StreamLookup::SetUp);
    assert_eq!(look_up_stream(false, false, true), StreamLookup::SetUp);
    assert_eq!(look_up_stream(false, false, false), StreamLookup::Unknown);
}

#[test]
fn a_command_without_its_token_goes_nowhere() {
    let refused = |expected, got| {
        admit_command(expected, got, PlayoutCommand::Stop)
            .map(|_| ())
            .unwrap_err()
    };
    let expected = ApiError(401, "invalid or missing X-Auth".into());
    assert_eq!(refused(Some("c"), HeaderText::Text("i")), expected);
    assert_eq!(refused(Some("c"), HeaderText::Missing), expected);
    let admitted = admit_command(Some("c"), HeaderText::Text("c"), PlayoutCommand::Stop);
    let Ok(admitted) = admitted else {
        panic!("the token is right");
    };
    assert_eq!(
        set_playout(&store_with(&[]), &admitted).unwrap(),
        EngineCommand::Stop
    );
}

#[test]
fn late_segments_are_no_permanent_gaps() {
    let mut store = store_with(&[5, 9]);
    assert_eq!(store.permanent_gaps(), 0);
    store.abandon(&[6, 7]);
    assert_eq!(store.permanent_gaps(), 2);
    store.record(0, 6, None);
    assert_eq!(store.permanent_gaps(), 1);
}
