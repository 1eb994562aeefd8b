//! The alarm of the encoder's window.

use obcast::alarm::{buffer_estimate, Alarm, FlashColor};
use obcast::control::LogLevel;
use obcast::state::{PlayoutState, ServerState};

fn messages(lines: &[obcast::alarm::AlarmLine]) -> Vec<(LogLevel, &str)> {
    lines.iter().map(|l| (l.level, l.message.as_str())).collect()
}

#[test]
fn a_clip_flashes_four_times() {
    let mut alarm = Alarm::new(0);
    let (color, lines) = alarm.flash(true, None, 1_000);
    assert_eq!(color, Some(FlashColor::Clip));
    assert_eq!(messages(&lines), vec![(LogLevel::Warn, "input clip detected")]);
    let mut shown = Vec::new();
    for step in 1..9 {
        let (color, lines) = alarm.flash(true, None, 1_000 + step * 200);
        assert!(lines.is_empty());
        shown.push(color.is_some());
    }
    assert_eq!(
        shown,
        vec![false, true, false, true, false, true, false, false]
    );
}

#[test]
fn a_clip_that_was_cleared_is_a_new_one() {
    let mut alarm = Alarm::new(0);
    alarm.flash(true, None, 0);
    alarm.flash(false, None, 5_000);
    let (color, lines) = alarm.flash(true, None, 6_000);
    assert_eq!(color, Some(FlashColor::Clip));
    assert_eq!(lines.len(), 1);
}

#[test]
fn an_outage_is_logged_once_and_escalates() {
    let mut alarm = Alarm::new(0);
    let (color, lines) = alarm.flash(false, Some((60_000, true)), 400);
    assert_eq!(color, Some(FlashColor::LinkDown));
    assert_eq!(messages(&lines), vec![(LogLevel::Warn, "server link down")]);
    let (color, lines) = alarm.flash(false, Some((50_000, true)), 600);
    assert_eq!(color, None);
    assert!(lines.is_empty());
    let (color, lines) = alarm.flash(false, Some((44_999, true)), 800);
    assert_eq!(color, Some(FlashColor::Critical));
    assert_eq!(
        messages(&lines),
        vec![(
            LogLevel::Error,
            "server link down and buffer critical (44999 ms left)"
        )]
    );
    let (_, lines) = alarm.flash(false, Some((44_000, true)), 1_000);
    assert!(lines.is_empty());
}

#[test]
fn an_outage_after_a_recovery_is_logged_again() {
    let mut alarm = Alarm::new(0);
    alarm.flash(false, Some((1_000, true)), 0);
    let (color, lines) = alarm.flash(false, Some((1_000, false)), 100);
    assert_eq!(color, None);
    assert!(lines.is_empty());
    let (_, lines) = alarm.flash(false, Some((1_000, true)), 200);
    assert_eq!(lines.len(), 2);
}

#[test]
fn a_clip_goes_before_an_outage() {
    let mut alarm = Alarm::new(0);
    let (color, lines) = alarm.flash(true, Some((0, true)), 0);
    assert_eq!(color, Some(FlashColor::Clip));
    assert_eq!(lines.len(), 1);
}

#[test]
fn the_buffer_drains_while_the_server_is_quiet() {
    let mut state = ServerState::unknown();
    state.playout.state = PlayoutState::Playing;
    state.lead_ms = 10_000;
    state.buffered_ms = 99_000;
    assert_eq!(buffer_estimate(&state, 0), (10_000, false));
    assert_eq!(buffer_estimate(&state, 4_999), (5_001, false));
    assert_eq!(buffer_estimate(&state, 5_000), (5_000, true));
    assert_eq!(buffer_estimate(&state, 60_000), (0, true));
    state.playout.state = PlayoutState::Stopped;
    assert_eq!(buffer_estimate(&state, 1_000), (98_000, false));
}
