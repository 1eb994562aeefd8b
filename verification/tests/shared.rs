//! The encoder's model of the server.

use obcast::control::LogLevel;
use obcast::shared::SharedState;
use obcast::state::{PlayoutState, ServerState};

fn news(rev: u64) -> ServerState {
    let mut state = ServerState::unknown();
    state.rev = rev;
    state.live_seq = Some(rev);
    state
}

#[test]
fn older_news_are_ignored() {
    let mut shared = SharedState::new();
    shared.update(news(5), 100);
    shared.update(news(4), 200);
    assert_eq!(shared.server_snapshot(300).0.rev, 5);
    shared.update(news(6), 300);
    assert_eq!(shared.server_snapshot(300).0.rev, 6);
}

#[test]
fn a_quiet_server_is_unknown() {
    let mut shared = SharedState::new();
    assert!(!shared.is_fresh(0));
    assert_eq!(shared.server_state_or_unknown(0).live_seq, None);
    shared.update(news(9), 1_000);
    assert!(shared.is_fresh(5_999));
    assert_eq!(shared.server_state_or_unknown(5_999).live_seq, Some(9));
    assert!(!shared.is_fresh(6_000));
    assert_eq!(shared.server_state_or_unknown(6_000), ServerState::unknown());
    assert_eq!(shared.server_snapshot(6_000).1, 5_000);
}

#[test]
fn the_log_keeps_two_hundred_lines() {
    let mut shared = SharedState::new();
    assert!(shared.latest_log().is_none());
    for i in 0..250u64 {
        assert_eq!(shared.push_log(i, LogLevel::Info, format!("line {i}")), i + 1);
    }
    let lines = shared.recent_log();
    assert_eq!(lines.len(), 200);
    assert_eq!(lines[0].message, "line 50");
    assert_eq!(shared.latest_log().unwrap().message, "line 249");
    assert_eq!(shared.log_seq(), 250);
}

#[test]
fn an_error_line_is_noticed_once() {
    let mut shared = SharedState::new();
    shared.push_log(0, LogLevel::Warn, "careful".into());
    assert!(!shared.take_encoder_failed());
    shared.push_log(0, LogLevel::Error, "gone".into());
    assert!(shared.take_encoder_failed());
    assert!(!shared.take_encoder_failed());
}

#[test]
fn uploads_are_noted() {
    let mut shared = SharedState::new();
    assert_eq!(shared.last_uploaded_seq(), None);
    shared.note_upload(7, 1_234);
    assert_eq!(shared.last_uploaded_seq(), Some(7));
    assert_eq!(shared.throughput_kbps(), 1_234);
    shared.note_primary_rung(2);
    assert_eq!(shared.primary_rung(), 2);
}

#[test]
fn the_quality_on_air_is_guessed_without_news() {
    let mut shared = SharedState::new();
    assert!(shared.playing_quality(2000, 0).is_none());
    let mut state = news(1);
    state.playout.state = PlayoutState::Playing;
    state.playout.position_seq = Some(10);
    state.playout.playing_rung = Some(3);
    shared.update(state, 0);
    shared.note_sent(10, 3);
    shared.note_sent(13, 1);
    let now = shared.playing_quality(2000, 1_000).unwrap();
    assert_eq!((now.rung, now.seq, now.estimated), (3, 10, false));
    let later = shared.playing_quality(2000, 7_000).unwrap();
    assert_eq!((later.rung, later.seq, later.estimated), (1, 13, true));
    let between = shared.playing_quality(2000, 5_000).unwrap();
    assert_eq!((between.rung, between.estimated), (3, true));
}
