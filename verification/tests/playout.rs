//! The playout engine.

use std::collections::VecDeque;

use obcast::playout::{
    advance_pending, best_available_path, decoder_args, elapsed_ms_from_remaining, skip_samples,
    stall_timeout, EngineCommand, EngineEffects, FeedDecision, PcmFramer, PendingSegment,
    PlayoutHandle, StreamAction, CHANNELS,
};
use obcast::state::{PlayoutState, StreamProfile, WaterLevels};
use obcast::store::DvrStore;
use obcast::tone::{build_test_tone_pattern, test_tone_channels_at, ToneChannels};

const SR: u32 = 48_000;

#[test]
fn pattern_totals_four_point_five_seconds() {
    let (_, total) = build_test_tone_pattern(SR);
    assert_eq!(total, (4.5 * SR as f64) as u64);
}

#[test]
fn sections_land_on_the_documented_boundaries() {
    let (bounds, _) = build_test_tone_pattern(SR);
    let both_end = (2.0 * SR as f64) as u64;
    let pause1_end = both_end + (0.5 * SR as f64) as u64;
    let left_end = pause1_end + (0.5 * SR as f64) as u64;
    let pause2_end = left_end + (0.5 * SR as f64) as u64;
    let right_end = pause2_end + (0.5 * SR as f64) as u64;
    let pause3_end = right_end + (0.5 * SR as f64) as u64;

    assert!(matches!(
        test_tone_channels_at(0, &bounds),
        ToneChannels::Both
    ));
    assert!(matches!(
        test_tone_channels_at(both_end - 1, &bounds),
        ToneChannels::Both
    ));
    assert!(matches!(
        test_tone_channels_at(both_end, &bounds),
        ToneChannels::Silent
    ));
    assert!(matches!(
        test_tone_channels_at(pause1_end, &bounds),
        ToneChannels::Left
    ));
    assert!(matches!(
        test_tone_channels_at(left_end, &bounds),
        ToneChannels::Silent
    ));
    assert!(matches!(
        test_tone_channels_at(pause2_end, &bounds),
        ToneChannels::Right
    ));
    assert!(matches!(
        test_tone_channels_at(right_end, &bounds),
        ToneChannels::Silent
    ));
    assert_eq!(pause3_end, (4.5 * SR as f64) as u64);
}

#[test]
fn advance_pending_reports_nothing_drained_yet() {
    let mut pending = VecDeque::from([(5, Some(2), 100)]);
    assert_eq!(advance_pending(&mut pending, 40), None);
    assert_eq!(pending.front(), Some(&(5, Some(2), 60)));
}

#[test]
fn advance_pending_stays_on_a_segment_until_fully_drained() {
    let mut pending = VecDeque::from([(5, Some(2), 100)]);
    assert_eq!(advance_pending(&mut pending, 60), None);
    assert_eq!(advance_pending(&mut pending, 39), None);
    assert_eq!(advance_pending(&mut pending, 1), Some((6, None)));
    assert!(pending.is_empty());
}

#[test]
fn advance_pending_can_cross_multiple_segments_in_one_callback() {
    let mut pending = VecDeque::from([(5, Some(0), 10), (6, Some(1), 10), (7, Some(2), 10)]);
    assert_eq!(advance_pending(&mut pending, 25), Some((7, Some(2))));
    assert_eq!(pending.front(), Some(&(7, Some(2), 5)));
}

#[test]
fn advance_pending_pops_zero_length_entries_immediately_without_needing_filled() {
    let mut pending = VecDeque::from([(5, None, 0), (6, None, 0), (7, Some(1), 10)]);
    assert_eq!(advance_pending(&mut pending, 0), Some((7, Some(1))));
    assert_eq!(pending.front(), Some(&(7, Some(1), 10)));
}

#[test]
fn advance_pending_ignores_the_zero_padded_underrun_tail() {
    let mut pending = VecDeque::from([(5, Some(0), 100)]);
    assert_eq!(advance_pending(&mut pending, 0), None);
    assert_eq!(pending.front(), Some(&(5, Some(0), 100)));
}

#[test]
fn advance_pending_on_an_empty_queue_reports_nothing() {
    let mut pending: VecDeque<PendingSegment> = VecDeque::new();
    assert_eq!(advance_pending(&mut pending, 50), None);
}

#[test]
fn advance_pending_reports_none_rung_when_nothing_is_queued_for_the_new_head() {
    let mut pending = VecDeque::from([(5, Some(2), 10)]);
    assert_eq!(advance_pending(&mut pending, 10), Some((6, None)));
    assert!(pending.is_empty());
}

#[test]
fn advance_pending_reflects_a_lower_rung_actually_fed_even_though_disk_now_has_hd() {
    let mut pending = VecDeque::from([(5, Some(2), 10), (6, Some(0), 10)]);
    assert_eq!(advance_pending(&mut pending, 10), Some((6, Some(0))));
}

#[test]
fn elapsed_ms_is_zero_for_a_freshly_fed_segment() {
    assert_eq!(elapsed_ms_from_remaining(100, 100, 2000), 0);
}

#[test]
fn elapsed_ms_is_full_segment_once_fully_drained() {
    assert_eq!(elapsed_ms_from_remaining(0, 100, 2000), 2000);
}

#[test]
fn elapsed_ms_is_proportional_partway_through() {
    assert_eq!(elapsed_ms_from_remaining(75, 100, 2000), 500);
}

#[test]
fn elapsed_ms_counts_a_sub_segment_seek_skip_as_already_elapsed() {
    assert_eq!(elapsed_ms_from_remaining(50, 100, 2000), 1000);
}

#[test]
fn elapsed_ms_is_zero_with_no_sample_rate_known() {
    assert_eq!(elapsed_ms_from_remaining(0, 0, 2000), 0);
}

#[test]
fn skip_samples_converts_ms_to_interleaved_samples() {
    assert_eq!(skip_samples(250, 48_000, 2000), 24_000);
}

#[test]
fn skip_samples_clamps_below_one_full_segment() {
    let segment_samples = 2000 * 48_000 / 1000 * CHANNELS;
    assert_eq!(skip_samples(2000, 48_000, 2000), segment_samples - CHANNELS);
    assert_eq!(
        skip_samples(10_000, 48_000, 2000),
        segment_samples - CHANNELS
    );
}

#[test]
fn skip_samples_zero_ms_is_zero_samples() {
    assert_eq!(skip_samples(0, 48_000, 2000), 0);
}

fn opened(segment_ms: u32) -> PlayoutHandle {
    let mut handle = PlayoutHandle::new(segment_ms);
    handle.device_opened("speakers".into(), 1_000);
    handle
}

#[test]
fn a_start_is_stalled_until_audio_comes() {
    let mut handle = opened(2_000);
    assert_eq!(handle.playout_state(), PlayoutState::Stopped);
    let effects = handle.apply_command(EngineCommand::Start {
        position: 5,
        skip_ms: 500,
    });
    assert_eq!(
        effects,
        EngineEffects {
            stop_decoder: true,
            stream: StreamAction::Play,
            flush_ring: true,
            start_decoder: Some(1_000),
        }
    );
    assert_eq!(handle.playout_state(), PlayoutState::Stalled);
    assert_eq!(handle.position(), Some(5));
    assert_eq!(
        handle.decide_feed(Some(2), false, 0),
        FeedDecision::Feed { seq: 5, rung: 2 }
    );
    handle.fed(2);
    assert_eq!(handle.fed_seq(), Some(5));
    assert_eq!(handle.ms_into_current_segment(), 500);
    assert_eq!(handle.playing_rung(), None);
    handle.played(200, 200);
    assert_eq!(handle.playout_state(), PlayoutState::Playing);
    assert_eq!(handle.playing_rung(), Some(2));
    assert_eq!(handle.ms_into_current_segment(), 600);
    assert_eq!(handle.feed_head(), Some(6));
    handle.played(2_800, 2_800);
    assert_eq!(handle.position(), Some(6));
    assert_eq!(handle.playing_rung(), None);
}

#[test]
fn a_missing_segment_is_waited_for_and_then_passed() {
    let mut handle = opened(1_000);
    handle.apply_command(EngineCommand::Start {
        position: 3,
        skip_ms: 0,
    });
    assert_eq!(
        handle.decide_feed(None, false, 10_000),
        FeedDecision::Wait { seq: 3 }
    );
    assert_eq!(
        handle.detail().unwrap(),
        "waiting on segment 3 from the encoder"
    );
    assert_eq!(
        handle.decide_feed(None, false, 12_999),
        FeedDecision::Wait { seq: 3 }
    );
    assert_eq!(
        handle.decide_feed(None, false, 13_000),
        FeedDecision::SkipMissing { seq: 3 }
    );
    assert_eq!(
        handle.detail().unwrap(),
        "segment 3 missing for over 3000ms, skipped"
    );
    assert_eq!(handle.feed_head(), Some(4));
    assert_eq!(
        handle.decide_feed(None, false, 13_000),
        FeedDecision::Wait { seq: 4 }
    );
}

#[test]
fn an_abandoned_segment_is_passed_at_once() {
    let mut handle = opened(1_000);
    handle.apply_command(EngineCommand::Start {
        position: 3,
        skip_ms: 0,
    });
    assert_eq!(
        handle.decide_feed(None, true, 0),
        FeedDecision::SkipAbandoned { seq: 3 }
    );
    handle.played(0, 100);
    assert_eq!(handle.position(), Some(4));
}

#[test]
fn a_paused_engine_feeds_nothing() {
    let mut handle = opened(1_000);
    handle.apply_command(EngineCommand::Start {
        position: 3,
        skip_ms: 0,
    });
    let effects = handle.apply_command(EngineCommand::Pause);
    assert_eq!(effects.stream, StreamAction::Pause);
    assert_eq!(handle.playout_state(), PlayoutState::Paused);
    assert!(!handle.should_feed());
    assert_eq!(handle.decide_feed(Some(0), false, 0), FeedDecision::Idle);
    handle.apply_command(EngineCommand::Resume);
    assert!(handle.should_feed());
}

#[test]
fn a_stopped_engine_reports_nothing() {
    let mut handle = opened(1_000);
    handle.apply_command(EngineCommand::Start {
        position: 3,
        skip_ms: 0,
    });
    handle.fed(1);
    handle.played(1_000, 1_000);
    assert_eq!(handle.ms_into_current_segment(), 500);
    let effects = handle.apply_command(EngineCommand::Stop);
    assert!(effects.stop_decoder && effects.flush_ring);
    assert_eq!(effects.stream, StreamAction::Pause);
    let status = handle.status();
    assert_eq!(status.state, PlayoutState::Stopped);
    assert_eq!(status.position_seq, None);
    assert_eq!(status.fed_seq, None);
    assert_eq!(status.playing_rung, None);
    assert_eq!(status.position_ms_into_segment, 0);
    handle.apply_command(EngineCommand::Resume);
    handle.played(0, 1_000);
    assert_eq!(handle.playout_state(), PlayoutState::Stopped);
    assert_eq!(handle.position(), None);
    handle.apply_command(EngineCommand::Seek {
        position: 9,
        skip_ms: 0,
    });
    assert_eq!(handle.position(), None);
    assert_eq!(status.device.as_deref(), Some("speakers"));
}

#[test]
fn a_seek_moves_the_head_at_once() {
    let mut handle = opened(1_000);
    handle.apply_command(EngineCommand::Start {
        position: 3,
        skip_ms: 0,
    });
    handle.fed(1);
    let effects = handle.apply_command(EngineCommand::Seek {
        position: 9,
        skip_ms: 0,
    });
    assert!(effects.flush_ring);
    assert_eq!(effects.start_decoder, Some(0));
    assert_eq!(handle.position(), Some(9));
    assert_eq!(handle.fed_seq(), None);
}

#[test]
fn a_device_error_is_reported() {
    let mut handle = PlayoutHandle::new(1_000);
    assert_eq!(handle.device_name(), None);
    handle.set_device_error(Some("output device has no default config".into()));
    assert_eq!(handle.playout_state(), PlayoutState::Error);
    assert_eq!(
        handle.detail().unwrap(),
        "output device has no default config"
    );
    handle.set_device_error(None);
    assert_eq!(handle.playout_state(), PlayoutState::Stopped);
}

#[test]
fn the_test_tone_is_independent_of_playout() {
    let mut handle = opened(1_000);
    let on = handle.apply_command(EngineCommand::SetTestTone { enabled: true });
    assert_eq!(on.stream, StreamAction::Play);
    assert!(handle.test_tone());
    assert_eq!(handle.playout_state(), PlayoutState::Stopped);
    let off = handle.apply_command(EngineCommand::SetTestTone { enabled: false });
    assert_eq!(off.stream, StreamAction::Pause);
    handle.apply_command(EngineCommand::Start {
        position: 0,
        skip_ms: 0,
    });
    handle.apply_command(EngineCommand::SetTestTone { enabled: true });
    let off = handle.apply_command(EngineCommand::SetTestTone { enabled: false });
    assert_eq!(off.stream, StreamAction::Keep);
}

#[test]
fn a_failed_feed_is_told() {
    let mut handle = opened(1_000);
    handle.apply_command(EngineCommand::Start {
        position: 8,
        skip_ms: 0,
    });
    handle.feed_failed("broken pipe");
    assert_eq!(
        handle.detail().unwrap(),
        "segment 8 failed to decode: broken pipe"
    );
    assert_eq!(handle.feed_head(), Some(8));
}

#[test]
fn the_volume_is_in_thousandths() {
    let mut handle = opened(1_000);
    assert_eq!(handle.volume(), 1_000);
    handle.apply_command(EngineCommand::SetVolume { gain_millis: 250 });
    assert_eq!(handle.volume(), 250);
}

#[test]
fn bytes_are_framed_into_samples() {
    let mut framer = PcmFramer::new(1);
    let one = 1.5f32.to_le_bytes();
    let two = (-0.25f32).to_le_bytes();
    let mut bytes = one.to_vec();
    bytes.extend_from_slice(&two);
    assert!(framer.push(&bytes[..3]).is_empty());
    assert!(framer.push(&bytes[3..5]).is_empty());
    assert_eq!(framer.push(&bytes[5..]), vec![(-0.25f32).to_bits()]);
    assert_eq!(framer.push(&one), vec![1.5f32.to_bits()]);
}

#[test]
fn the_best_rung_on_disk_is_fed() {
    let mut store = DvrStore::new(
        StreamProfile::default_ladder(2000),
        WaterLevels::default(),
        0,
        "/d".into(),
        0,
    );
    store.record(0, 4, None);
    store.record(2, 4, None);
    let found = best_available_path(&store, &[0, 1, 2, 3], 4);
    assert_eq!(found, Some(("/d/2/4.ts".to_string(), 2)));
    assert_eq!(
        best_available_path(&store, &[0, 1, 2, 3], 5),
        Some(("/d/0/5.ts".to_string(), 0))
    );
    assert_eq!(best_available_path(&store, &[], 4), None);
}

#[test]
fn stalls_time_out_after_three_segments() {
    assert_eq!(stall_timeout(2_000), 6_000);
    assert_eq!(stall_timeout(0), 3);
}

#[test]
fn the_decoder_is_told_the_rate() {
    assert_eq!(
        decoder_args(48_000).join(" "),
        "-hide_banner -loglevel error -fflags +genpts -f mpegts -i pipe:0 -f f32le -ac 2 -ar 48000 -"
    );
}

#[test]
fn a_reason_is_given_for_a_stall_only() {
    let mut handle = opened(1_000);
    handle.apply_command(EngineCommand::Start {
        position: 3,
        skip_ms: 0,
    });
    handle.decide_feed(None, false, 0);
    assert!(handle.detail().is_some());
    handle.apply_command(EngineCommand::Pause);
    assert_eq!(handle.playout_state(), PlayoutState::Paused);
    assert_eq!(handle.detail(), None);
    handle.apply_command(EngineCommand::Resume);
    assert!(handle.detail().is_some());
    handle.fed(1);
    assert_eq!(handle.detail(), None);
}

#[test]
fn the_rung_on_air_is_that_of_the_front_of_the_queue() {
    let mut handle = opened(1_000);
    handle.apply_command(EngineCommand::Start {
        position: 7,
        skip_ms: 0,
    });
    handle.fed(2);
    handle.fed(0);
    handle.played(1_000, 1_000);
    assert_eq!(handle.position(), Some(7));
    assert_eq!(handle.playing_rung(), Some(2));
    handle.played(1_000, 1_000);
    assert_eq!(handle.position(), Some(8));
    assert_eq!(handle.playing_rung(), Some(0));
    handle.played(2_000, 2_000);
    assert_eq!(handle.playing_rung(), None);
}
