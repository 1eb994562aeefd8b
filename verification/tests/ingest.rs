//! Uploads.

use obcast::ingest::{
    abandoned_message, auto_start_message, check_auth, check_upload, current_state, header_str,
    header_u64, header_u8, is_stale, maybe_auto_start, resets_store,
    should_reset_for_new_session, ApiError, HeaderText, UploadSetting,
};
use obcast::state::{EncoderState, PlayoutState, ServerState, StreamProfile, WaterLevels};
use obcast::store::DvrStore;

#[test]
fn quick_restart_under_the_stale_window_appends_rather_than_resets() {
    assert!(!should_reset_for_new_session(true, false, true));
}

#[test]
fn long_outage_on_the_same_encoder_process_never_resets() {
    assert!(!should_reset_for_new_session(false, true, true));
}

#[test]
fn marker_past_the_stale_window_resets() {
    assert!(should_reset_for_new_session(true, true, true));
}

#[test]
fn never_ingested_before_has_nothing_to_reset() {
    assert!(!should_reset_for_new_session(true, true, false));
}

#[test]
fn no_marker_and_not_stale_never_resets() {
    assert!(!should_reset_for_new_session(false, false, true));
}

fn store() -> DvrStore {
    DvrStore::new(
        StreamProfile::default_ladder(2000),
        WaterLevels::default(),
        0,
        "/d".into(),
        7,
    )
}

#[test]
fn an_upload_names_its_rung_and_segment() {
    let upload = check_upload(
        Some("t"),
        HeaderText::Text("t"),
        HeaderText::Text("3"),
        HeaderText::Text("42"),
    );
    assert_eq!(upload, Ok((3, 42)));
}

#[test]
fn a_refused_upload_is_told_why() {
    let refused = |auth, rendition, seq| check_upload(Some("t"), auth, rendition, seq).unwrap_err();
    let ok = HeaderText::Text("t");
    assert_eq!(
        refused(HeaderText::Text("x"), HeaderText::Missing, HeaderText::Missing),
        ApiError(401, "invalid or missing X-Auth".into())
    );
    assert_eq!(
        refused(ok, HeaderText::Missing, HeaderText::Missing),
        ApiError(400, "missing header x-rendition".into())
    );
    assert_eq!(
        refused(ok, HeaderText::NotText, HeaderText::Missing),
        ApiError(400, "header x-rendition is not valid ASCII".into())
    );
    assert_eq!(
        refused(ok, HeaderText::Text("256"), HeaderText::Text("1")),
        ApiError(400, "invalid x-rendition".into())
    );
    assert_eq!(
        refused(ok, HeaderText::Text("0"), HeaderText::Text("-1")),
        ApiError(400, "invalid x-seq".into())
    );
    assert_eq!(
        refused(ok, HeaderText::Text("0"), HeaderText::Missing),
        ApiError(400, "missing header x-seq".into())
    );
}

#[test]
fn no_token_means_no_check() {
    assert!(check_auth(None, HeaderText::NotText).is_ok());
    assert!(check_auth(Some(""), HeaderText::Missing).is_err());
    assert_eq!(header_str(HeaderText::Text("v"), "x"), Ok("v"));
    assert_eq!(header_u8(HeaderText::Text("255"), "x"), Ok(255));
    assert_eq!(header_u64(HeaderText::Text("0"), "x"), Ok(0));
}

#[test]
fn a_stopped_engine_is_started_on_request() {
    let mut store = store();
    for seq in 4..8 {
        store.record(0, seq, None);
    }
    store.set_encoder_state(EncoderState {
        rev: 1,
        active_rungs: vec![0],
        encoded_seq: Some(7),
        primary_rung: 0,
        throughput_kbps: 9,
        backlog: 0,
        abandoned: vec![],
        auto_start_buffer_ms: Some(8_000),
    });
    assert_eq!(maybe_auto_start(&mut store, PlayoutState::Paused), None);
    assert_eq!(maybe_auto_start(&mut store, PlayoutState::Stopped), Some(4));
    assert_eq!(maybe_auto_start(&mut store, PlayoutState::Stopped), None);
    assert_eq!(
        auto_start_message(4),
        "auto-start: requested buffer reached, starting playout at seq 4"
    );
    assert_eq!(abandoned_message(12), "segment 12 abandoned");
}

#[test]
fn a_stream_without_recent_uploads_is_stale() {
    assert!(is_stale(None, 1));
    assert!(!is_stale(Some(999), 1_000));
    assert!(is_stale(Some(1_000), 1_000));
    let store = store();
    let playout = ServerState::unknown().playout;
    assert!(!current_state(&store, playout.clone(), Some(0), 60_000).stale_session);
    let state = current_state(&store, playout, Some(60_000), 60_000);
    assert!(state.stale_session);
    assert_eq!(state.rev, 7);
}

#[test]
fn a_new_session_on_a_stale_stream_resets_it() {
    let mut store = store();
    let upload = |new_session, age| UploadSetting {
        new_session,
        last_ingest_age_ms: Some(age),
        stale_reset_ms: 1_000,
    };
    assert!(!resets_store(&store, &upload(true, 5_000)));
    store.record(0, 1, None);
    assert!(resets_store(&store, &upload(true, 5_000)));
    assert!(!resets_store(&store, &upload(true, 500)));
    assert!(!resets_store(&store, &upload(false, 5_000)));
}
