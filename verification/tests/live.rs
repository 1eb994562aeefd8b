//! A live session.

use obcast::live::LiveSession;

#[test]
fn silence_for_three_segments_stops_a_session() {
    let mut session = LiveSession::new();
    session.started(2_000, 10_000);
    assert_eq!(session.check(&None, 15_999), None);
    session.heard(15_000);
    assert_eq!(session.check(&None, 20_999), None);
    assert_eq!(
        session.check(&None, 21_000).unwrap(),
        "no audio received from capture device; live stopped"
    );
    assert!(!session.running);
    assert_eq!(session.check(&None, 99_000), None);
}

#[test]
fn a_stall_names_the_device_error() {
    let mut session = LiveSession::new();
    session.started(1_000, 0);
    assert_eq!(
        session.check(&Some("unplugged".into()), 3_000).unwrap(),
        "audio capture stopped (unplugged); live stopped"
    );
}

#[test]
fn a_stopped_session_is_not_stalled() {
    let mut session = LiveSession::new();
    assert_eq!(session.check(&None, 1_000_000), None);
    session.started(1_000, 0);
    session.stopped();
    assert_eq!(session.check(&None, 1_000_000), None);
}

#[test]
fn a_failed_write_names_the_exit_status_if_known() {
    let mut session = LiveSession::new();
    session.started(1_000, 0);
    assert_eq!(
        session.write_failed(&Some("exit status: 1".into()), "broken pipe"),
        "ffmpeg exited (exit status: 1); live stopped"
    );
    assert!(!session.running);
    assert_eq!(
        session.write_failed(&None, "broken pipe"),
        "ffmpeg stdin write failed: broken pipe; live stopped"
    );
}
