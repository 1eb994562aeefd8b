//! Bitrate ladders.

use std::collections::BTreeSet;

use obcast::state::{AacCodec, RungId, StreamProfile};

#[test]
fn default_ladder_is_four_rungs_lo_he_rest_lc() {
    let profile = StreamProfile::default_ladder(2000);
    assert_eq!(profile.rungs.len(), 4);
    assert_eq!(profile.bitrate_of(0), 48);
    assert_eq!(profile.bitrate_of(1), 96);
    assert_eq!(profile.bitrate_of(2), 192);
    assert_eq!(profile.bitrate_of(3), 320);
    assert_eq!(profile.codec_of(0), Some(AacCodec::He));
    assert_eq!(profile.codec_of(1), Some(AacCodec::Lc));
    assert_eq!(profile.codec_of(2), Some(AacCodec::Lc));
    assert_eq!(profile.codec_of(3), Some(AacCodec::Lc));
}

#[test]
fn filtered_keeps_only_enabled_rungs_in_order() {
    let profile = StreamProfile::default_ladder(2000);
    let enabled: BTreeSet<RungId> = [1, 3].into_iter().collect();
    let filtered = profile.filtered(&enabled);
    assert_eq!(
        filtered.rungs.iter().map(|r| r.id).collect::<Vec<_>>(),
        vec![1, 3]
    );
    assert_eq!(filtered.low_rung(), 1);
    assert_eq!(filtered.top_rung(), 3);
}

#[test]
fn filtered_excluding_rung_zero_makes_the_next_lowest_the_effective_survival_rung() {
    let profile = StreamProfile::default_ladder(2000);
    let enabled: BTreeSet<RungId> = [1, 2, 3].into_iter().collect();
    let filtered = profile.filtered(&enabled);
    assert_eq!(filtered.low_rung(), 1);
    assert!(filtered.rungs.iter().all(|r| r.id != 0));
}

#[test]
fn filtered_never_returns_empty() {
    let profile = StreamProfile::default_ladder(2000);
    let filtered = profile.filtered(&BTreeSet::new());
    assert_eq!(filtered.rungs.len(), 1);
    assert_eq!(filtered.low_rung(), 0);
}

#[test]
fn filtered_ignores_unknown_ids() {
    let profile = StreamProfile::default_ladder(2000);
    let enabled: BTreeSet<RungId> = [99].into_iter().collect();
    let filtered = profile.filtered(&enabled);
    assert_eq!(filtered.rungs.len(), 1);
    assert_eq!(filtered.low_rung(), 0);
}

#[test]
fn nearest_enabled_or_low_prefers_the_preferred_rung_when_present() {
    let profile = StreamProfile::default_ladder(2000);
    let filtered = profile.filtered(&[0, 2].into_iter().collect());
    assert_eq!(filtered.nearest_enabled_or_low(2), 2);
}

#[test]
fn nearest_enabled_or_low_falls_back_when_preferred_was_disabled() {
    let profile = StreamProfile::default_ladder(2000);
    let filtered = profile.filtered(&[0, 1].into_iter().collect());
    assert_eq!(filtered.nearest_enabled_or_low(3), filtered.low_rung());
}

#[test]
fn a_step_up_skips_rungs_that_are_off() {
    let profile = StreamProfile::default_ladder(2000);
    let filtered = profile.filtered(&[0, 2].into_iter().collect());
    assert_eq!(filtered.rung_above(0), Some(2));
    assert_eq!(filtered.rung_above(2), None);
    assert_eq!(profile.rung_above(0), Some(1));
}

#[test]
fn a_rung_off_the_ladder_is_unknown() {
    let profile = StreamProfile::default_ladder(2000);
    assert_eq!(profile.bitrate_of(9), 0);
    assert_eq!(profile.codec_of(9), None);
    assert_eq!(profile.name_of(1), "mid");
    assert_eq!(profile.name_of(9), "rung 9");
    let empty = StreamProfile {
        segment_ms: 2000,
        rungs: vec![],
    };
    assert_eq!(empty.low_rung(), 0);
    assert_eq!(empty.top_rung(), 0);
    assert!(empty.filtered(&BTreeSet::new()).rungs.is_empty());
}
