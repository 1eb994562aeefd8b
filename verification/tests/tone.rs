//! The test tone.

use obcast::tone::{build_test_tone_pattern, next_tone_pos, test_tone_channels_at, ToneChannels};

#[test]
fn the_pattern_loops() {
    let (bounds, total) = build_test_tone_pattern(44_100);
    assert_eq!(bounds.len(), 6);
    assert_eq!(total, 198_450);
    assert_eq!(next_tone_pos(0, total), 1);
    assert_eq!(next_tone_pos(total - 1, total), 0);
    assert!(matches!(
        test_tone_channels_at(total, &bounds),
        ToneChannels::Silent
    ));
}

#[test]
fn a_stream_without_a_rate_has_a_pattern() {
    let (bounds, total) = build_test_tone_pattern(0);
    assert_eq!(total, 1);
    assert!(matches!(
        test_tone_channels_at(0, &bounds),
        ToneChannels::Silent
    ));
}
