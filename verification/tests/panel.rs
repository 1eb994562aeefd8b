//! What the encoder's window shows.

use std::collections::VecDeque;

use obcast::control::{LogEntry, LogLevel};
use obcast::panel::{
    buffer_reading, channel_header, format_log_time, infobar, is_due, log_level_tag, push_capped,
    quality_text, rung_counts, server_status, uploaded_label, BufferLevel,
};
use obcast::shared::QualityEstimate;
use obcast::state::{PlayoutState, SegCoverage, ServerState, StreamProfile};

#[test]
fn log_times_are_of_the_day() {
    assert_eq!(format_log_time(0), "00:00:00");
    assert_eq!(format_log_time(3_723_999), "01:02:03");
    assert_eq!(format_log_time(86_399_000), "23:59:59");
    assert_eq!(format_log_time(86_400_000), "00:00:00");
}

#[test]
fn level_tags_are_equally_wide() {
    assert_eq!(log_level_tag(LogLevel::Error), "ERROR");
    assert_eq!(log_level_tag(LogLevel::Warn), "WARN ");
    assert_eq!(log_level_tag(LogLevel::Info), "INFO ");
}

#[test]
fn a_history_keeps_the_newest_samples() {
    let mut history: VecDeque<f32> = VecDeque::new();
    for i in 0..5 {
        push_capped(&mut history, i as f32, 3);
    }
    assert_eq!(history, VecDeque::from([2.0, 3.0, 4.0]));
    push_capped(&mut history, 9.0, 0);
    assert!(history.is_empty());
}

#[test]
fn samples_are_due_after_the_interval() {
    assert!(is_due(None, 0, 1_000));
    assert!(!is_due(Some(500), 1_499, 1_000));
    assert!(is_due(Some(500), 1_500, 1_000));
}

#[test]
fn the_status_line_names_what_is_known() {
    let mut state = ServerState::unknown();
    state.lead_ms = 0;
    assert_eq!(server_status(&state), "server: ⚪ stopped   lead 0 ms");
    state.playout.state = PlayoutState::Stalled;
    state.playout.detail = Some("waiting on segment 7 from the encoder".into());
    state.lead_ms = 1_500;
    state.live_seq = Some(42);
    assert_eq!(
        server_status(&state),
        "server: 🟠 stalled (waiting on segment 7 from the encoder)   lead 1500 ms   live seq 42"
    );
}

#[test]
fn the_upload_line_waits_for_an_upload() {
    assert_eq!(uploaded_label(None, 5), None);
    assert_eq!(
        uploaded_label(Some(12), 960).unwrap(),
        "uploaded seq 12 @ 960 kbps"
    );
}

#[test]
fn the_infobar_hides_once_dismissed() {
    let entry = Some(LogEntry {
        at_ms: 1,
        level: LogLevel::Warn,
        message: "server link down".into(),
    });
    assert_eq!(
        infobar(3, 2, &entry),
        Some((LogLevel::Warn, "WARN  server link down".to_string()))
    );
    assert_eq!(infobar(3, 3, &entry), None);
    assert_eq!(infobar(1, 0, &None), None);
}

#[test]
fn the_buffer_reading_follows_the_water_levels() {
    let mut state = ServerState::unknown();
    state.playout.state = PlayoutState::Playing;
    state.lead_ms = 3_999;
    let reading = buffer_reading(&state, 0, false, 0);
    assert_eq!(reading.level, BufferLevel::Low);
    assert_eq!(reading.target_ms, 20_000);
    state.lead_ms = 11_999;
    assert_eq!(buffer_reading(&state, 0, false, 0).level, BufferLevel::Short);
    state.lead_ms = 12_000;
    assert_eq!(buffer_reading(&state, 0, false, 0).level, BufferLevel::Good);
    assert!(!buffer_reading(&state, 0, true, 30).auto_start_pending);
    state.water.high_ms = 0;
    assert_eq!(buffer_reading(&state, 0, false, 0).target_ms, 1);
    state.playout.state = PlayoutState::Stopped;
    let reading = buffer_reading(&state, 6_000, true, 30);
    assert!(reading.auto_start_pending);
    assert!(reading.estimated);
    assert_eq!(reading.target_ms, 30_000);
}

#[test]
fn rung_shares_leave_gaps_out() {
    let cov = |seq, best_rung| SegCoverage { seq, best_rung };
    let coverage = vec![
        cov(1, Some(0)),
        cov(2, None),
        cov(3, Some(3)),
        cov(4, Some(3)),
        cov(5, Some(9)),
    ];
    let (total, each) = rung_counts(&coverage, &StreamProfile::default_ladder(2000));
    assert_eq!(total, 4);
    assert_eq!(each, vec![1, 0, 0, 2]);
}

#[test]
fn the_quality_on_air_is_named() {
    let profile = StreamProfile::default_ladder(2000);
    let quality = |rung, estimated| {
        Some(QualityEstimate {
            rung,
            seq: 1,
            estimated,
        })
    };
    assert_eq!(quality_text(&profile, &None), "(not playing)");
    assert_eq!(quality_text(&profile, &quality(3, false)), "hd");
    assert_eq!(
        quality_text(&profile, &quality(0, true)),
        "lo (estimated — link down)"
    );
    assert_eq!(quality_text(&profile, &quality(7, false)), "rung 7");
}

#[test]
fn channels_are_counted_from_one() {
    assert_eq!(
        channel_header(true, 0, 5),
        "All Input Channels — source: 1"
    );
    assert_eq!(
        channel_header(false, 2, 65_535),
        "All Input Channels — L: 3  R: 65536"
    );
}
