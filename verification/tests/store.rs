//! The DVR store.

use std::time::{SystemTime, UNIX_EPOCH};

use obcast::state::{
    AacCodec, EncoderState, PlayoutState, PlayoutStatus, Rung, StreamProfile, WaterLevels,
};
use obcast::store::DvrStore;

fn profile() -> StreamProfile {
    StreamProfile {
        segment_ms: 2000,
        rungs: vec![
            Rung {
                id: 0,
                name: "lo".into(),
                bitrate_kbps: 32,
                codec: AacCodec::He,
            },
            Rung {
                id: 1,
                name: "mid".into(),
                bitrate_kbps: 128,
                codec: AacCodec::Lc,
            },
            Rung {
                id: 2,
                name: "hd".into(),
                bitrate_kbps: 320,
                codec: AacCodec::Lc,
            },
        ],
    }
}

fn status(state: PlayoutState, position_seq: Option<u64>) -> PlayoutStatus {
    PlayoutStatus {
        state,
        position_seq,
        playing_rung: None,
        fed_seq: None,
        position_ms_into_segment: 0,
        device: None,
        volume_millis: 1000,
        detail: None,
        test_tone: false,
    }
}

fn stopped() -> PlayoutStatus {
    status(PlayoutState::Stopped, None)
}

fn errored(detail: &str) -> PlayoutStatus {
    PlayoutStatus {
        detail: Some(detail.into()),
        ..status(PlayoutState::Error, None)
    }
}

fn epoch_ms() -> u64 {
    SystemTime::now()
        .duration_since(UNIX_EPOCH)
        .unwrap()
        .as_millis() as u64
}

fn store(dvr_window_ms: u32) -> DvrStore {
    DvrStore::new(
        profile(),
        WaterLevels::default(),
        dvr_window_ms,
        "/tmp/obcast-test".to_string(),
        epoch_ms(),
    )
}

#[test]
fn empty_store_has_no_frontier() {
    let s = store(60_000);
    let state = s.build_server_state(stopped());
    assert_eq!(state.live_seq, None);
    assert_eq!(state.frontier_seq, None);
    assert_eq!(state.lead_ms, 0);
}

#[test]
fn stopped_anchors_on_live_edge_and_reports_contiguous_frontier() {
    let mut s = store(60_000);
    for seq in 0..=5 {
        s.record(0, seq, None);
    }
    let state = s.build_server_state(stopped());
    assert_eq!(state.live_seq, Some(5));
    assert_eq!(state.dvr_start_seq, Some(0));
    assert_eq!(state.frontier_seq, Some(5));
    assert_eq!(state.lead_ms, 2000);
}

#[test]
fn playing_anchor_walks_frontier_from_head() {
    let mut s = store(60_000);
    for seq in 0..=10 {
        s.record(0, seq, None);
    }
    let playing = PlayoutStatus {
        state: PlayoutState::Playing,
        position_seq: Some(3),
        playing_rung: None,
        fed_seq: None,
        position_ms_into_segment: 0,
        device: None,
        volume_millis: 1000,
        detail: None,
        test_tone: false,
    };
    let state = s.build_server_state(playing);
    assert_eq!(state.frontier_seq, Some(10));
    assert_eq!(state.lead_ms, 8 * 2000);
}

#[test]
fn errored_anchors_on_live_edge_like_stopped() {
    let mut s = store(60_000);
    for seq in 0..=5 {
        s.record(0, seq, None);
    }
    let state = s.build_server_state(errored("no matching audio output device"));
    assert_eq!(state.frontier_seq, Some(5));
    assert_eq!(state.lead_ms, 2000);
}

#[test]
fn hole_breaks_frontier_but_abandon_heals_it() {
    let mut s = store(60_000);
    for seq in [0, 1, 3, 4] {
        s.record(0, seq, None);
    }
    let playing = PlayoutStatus {
        state: PlayoutState::Playing,
        position_seq: Some(0),
        playing_rung: None,
        fed_seq: None,
        position_ms_into_segment: 0,
        device: None,
        volume_millis: 1000,
        detail: None,
        test_tone: false,
    };
    let state = s.build_server_state(playing.clone());
    assert_eq!(state.frontier_seq, Some(1));

    s.abandon(&[2]);
    let state = s.build_server_state(playing);
    assert_eq!(state.frontier_seq, Some(4));
}

#[test]
fn record_is_idempotent_and_bumps_rev_once() {
    let mut s = store(60_000);
    s.record(0, 1, None);
    let rev_after_first = s.rev();
    s.record(0, 1, None);
    assert_eq!(s.rev(), rev_after_first);
}

#[test]
fn fresh_store_seeds_rev_from_wall_clock_not_zero() {
    let s = store(60_000);
    assert!(
        s.rev() > 1_000_000_000_000,
        "rev should look like epoch millis, not a small counter"
    );
}

#[test]
fn is_abandoned_reflects_abandon_calls() {
    let mut s = store(60_000);
    assert!(!s.is_abandoned(3));
    s.abandon(&[3]);
    assert!(s.is_abandoned(3));
    assert!(!s.is_abandoned(4));
}

#[test]
fn old_segments_are_evicted_outside_the_dvr_window() {
    let mut s = store(8_000);
    for seq in 0..=20 {
        s.record(0, seq, None);
    }
    assert!(s.dvr_start_seq().unwrap() > 0);
    assert_eq!(s.live_seq(), Some(20));
}

#[test]
fn eviction_never_drops_a_segment_at_or_after_the_playout_head() {
    let mut s = store(8_000);
    for seq in 0..=20 {
        s.record(0, seq, Some(2));
    }
    assert!(
        s.dvr_start_seq().unwrap() <= 2,
        "eviction must not pass the playout head (2), got {:?}",
        s.dvr_start_seq()
    );
    assert!(
        s.has_rung(2, 0),
        "the segment playout is sitting on must survive eviction"
    );
}

#[test]
fn record_returns_evicted_paths_for_the_caller_to_reap() {
    let mut s = store(8_000);
    let mut all_evicted = Vec::new();
    for seq in 0..=20 {
        all_evicted.extend(s.record(0, seq, None));
    }
    assert!(
        !all_evicted.is_empty(),
        "old segments falling out of the DVR window should be returned for reaping"
    );
    for path in &all_evicted {
        assert!(path.ends_with(".ts"));
        assert!(path.starts_with(s.data_dir()));
    }
    let mut fresh = store(8_000);
    assert!(fresh.record(0, 0, None).is_empty());
}

#[test]
fn record_is_a_noop_on_reupload_and_reaps_nothing() {
    let mut s = store(60_000);
    assert!(s.record(0, 1, None).is_empty());
    assert!(s.record(0, 1, None).is_empty());
}

#[test]
fn encoder_state_is_none_until_a_heartbeat_arrives_and_rejects_stale_revs() {
    let mut s = store(60_000);
    assert!(s.encoder_state().is_none());

    let base = EncoderState {
        rev: 5,
        active_rungs: vec![0, 1, 2],
        encoded_seq: Some(10),
        primary_rung: 1,
        throughput_kbps: 128,
        backlog: 0,
        abandoned: vec![],
        auto_start_buffer_ms: None,
    };
    s.set_encoder_state(base.clone());
    assert_eq!(s.encoder_state(), Some(&base));

    let mut stale = base.clone();
    stale.rev = 4;
    stale.throughput_kbps = 999;
    s.set_encoder_state(stale);
    assert_eq!(s.encoder_state().unwrap().throughput_kbps, 128);

    let mut newer = base;
    newer.rev = 6;
    newer.throughput_kbps = 256;
    s.set_encoder_state(newer);
    assert_eq!(s.encoder_state().unwrap().throughput_kbps, 256);
}

#[test]
fn a_window_of_zero_keeps_everything() {
    let mut s = store(0);
    for seq in 0..=500 {
        assert!(s.record(0, seq, None).is_empty());
    }
    assert_eq!(s.dvr_start_seq(), Some(0));
    assert_eq!(s.playable_seqs().len(), 501);
}

#[test]
fn what_is_reaped_is_what_has_left() {
    let mut s = store(4_000);
    s.record(0, 0, None);
    s.record(2, 0, None);
    let reaped = s.record(0, 10, None);
    assert_eq!(
        reaped,
        vec![
            "/tmp/obcast-test/0/0.ts".to_string(),
            "/tmp/obcast-test/2/0.ts".to_string()
        ]
    );
    assert!(!s.has_media(0));
    assert!(s.has_media(10));
}

#[test]
fn a_late_segment_behind_the_window_leaves_at_once() {
    let mut s = store(4_000);
    s.record(0, 10, None);
    assert_eq!(s.record(1, 3, None), vec!["/tmp/obcast-test/1/3.ts"]);
    assert_eq!(s.record(1, 3, None), vec!["/tmp/obcast-test/1/3.ts"]);
    assert_eq!(s.playable_seqs(), vec![10]);
}

#[test]
fn the_best_rung_is_the_highest_one() {
    let mut s = store(60_000);
    assert_eq!(s.best_rung(4), None);
    s.record(2, 4, None);
    s.record(1, 4, None);
    assert_eq!(s.best_rung(4), Some(2));
    assert!(s.has_rung(4, 1));
    assert!(!s.has_rung(4, 0));
}

#[test]
fn coverage_shows_where_quality_is_missing() {
    let mut s = store(600_000);
    s.record(0, 5, None);
    s.record(2, 7, None);
    let state = s.build_server_state(status(PlayoutState::Paused, Some(5)));
    let coverage: Vec<_> = state.coverage.iter().map(|c| (c.seq, c.best_rung)).collect();
    assert_eq!(coverage, vec![(5, Some(0)), (6, None), (7, Some(2))]);
    assert_eq!(state.frontier_seq, Some(5));
}

#[test]
fn auto_start_fires_once_per_request() {
    let mut s = store(60_000);
    let request = |rev, ms| EncoderState {
        rev,
        active_rungs: vec![0],
        encoded_seq: None,
        primary_rung: 0,
        throughput_kbps: 0,
        backlog: 0,
        abandoned: vec![],
        auto_start_buffer_ms: ms,
    };
    for seq in 0..3 {
        s.record(0, seq, None);
    }
    assert_eq!(s.due_for_auto_start(), None);
    s.set_encoder_state(request(1, Some(8_000)));
    assert_eq!(s.due_for_auto_start(), None);
    s.record(0, 3, None);
    assert_eq!(s.buffered_ms(), 8_000);
    assert_eq!(s.due_for_auto_start(), Some(0));
    s.mark_auto_start_fired(8_000);
    assert_eq!(s.due_for_auto_start(), None);
    s.set_encoder_state(request(2, Some(6_000)));
    assert_eq!(s.due_for_auto_start(), Some(0));
}

#[test]
fn abandoning_does_not_shorten_the_frontier() {
    let mut s = store(60_000);
    for seq in 0..=2 {
        s.record(0, seq, None);
    }
    let before = s.build_server_state(status(PlayoutState::Playing, Some(0)));
    s.abandon(&[1]);
    let after = s.build_server_state(status(PlayoutState::Playing, Some(0)));
    assert_eq!(before.frontier_seq, Some(2));
    assert_eq!(after.frontier_seq, Some(2));
    assert!(after.rev > before.rev);
}

#[test]
fn playout_that_starts_on_its_own_has_the_buffer_ahead() {
    let mut s = store(0);
    for seq in 3..=8 {
        s.record(0, seq, None);
    }
    let state = s.build_server_state(status(PlayoutState::Stalled, Some(3)));
    assert_eq!(state.buffered_ms, 12_000);
    assert_eq!(state.lead_ms, 12_000);
    assert_eq!(s.build_server_state(stopped()).buffered_ms, 12_000);
}

#[test]
fn the_buffer_stays_within_the_window() {
    let mut s = store(10_000);
    for seq in 0..=40 {
        s.record(0, seq, None);
        assert!(s.buffered_ms() <= 12_000);
    }
    assert_eq!(s.buffered_ms(), 12_000);
    assert_eq!(s.dvr_start_seq(), Some(35));
}

#[test]
fn what_was_recorded_is_held_or_was_reaped_once() {
    let mut s = store(6_000);
    let mut recorded = Vec::new();
    let mut reaped = Vec::new();
    let mut rev = s.rev();
    for (rung, seq, head) in [
        (0, 1, None),
        (1, 1, None),
        (0, 4, Some(1)),
        (0, 9, Some(2)),
        (0, 3, None),
        (2, 9, None),
        (0, 20, None),
    ] {
        recorded.push((rung, seq));
        reaped.extend(s.record(rung, seq, head));
        assert!(s.rev() > rev);
        rev = s.rev();
        s.abandon(&[2]);
        assert!(s.rev() >= rev);
        rev = s.rev();
    }
    for (rung, seq) in &recorded {
        let path = s.segment_path(*rung, *seq);
        let times = reaped.iter().filter(|p| **p == path).count();
        assert_eq!(times, if s.has_rung(*seq, *rung) { 0 } else { 1 });
    }
    assert!(reaped.len() < recorded.len());
}

#[test]
fn the_last_number_there_is_can_be_held() {
    let mut s = store(0);
    s.record(0, u64::MAX - 1, None);
    s.record(0, u64::MAX, None);
    s.abandon(&[u64::MAX - 2]);
    let state = s.build_server_state(status(PlayoutState::Playing, Some(u64::MAX - 2)));
    assert_eq!(state.frontier_seq, Some(u64::MAX));
    assert_eq!(state.lead_ms, 6_000);
    assert_eq!(state.coverage.len(), 3);
    assert_eq!(s.permanent_gaps(), 0);
}
