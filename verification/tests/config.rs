//! Settings.

use obcast::config::{all_rung_ids, AppConfig, Overrides, PeakMode, ServerConfig};

fn overrides() -> Overrides {
    Overrides {
        server: "http://127.0.0.1:8080".into(),
        stream: "obshow".into(),
        ingest_token: None,
        out_dir: "./client-buffer".into(),
        segment_ms: 2000,
        auto_start_secs: None,
    }
}

#[test]
fn a_fresh_install_has_every_rung_on() {
    let config = AppConfig::default();
    assert_eq!(all_rung_ids(), vec![0, 1, 2, 3]);
    assert_eq!(config.enabled_rungs, all_rung_ids());
    assert_eq!(config.server, "http://127.0.0.1:8080");
    assert_eq!(config.peak_mode, PeakMode::Ppm);
    assert_eq!(config.auto_start_buffer_secs, 300);
    assert_eq!(ServerConfig::default().audio.host, "");
}

#[test]
fn normalizing_repairs_an_empty_list() {
    let mut config = AppConfig::default();
    config.enabled_rungs = vec![];
    config.normalize();
    assert_eq!(config.enabled_rungs, vec![0]);
    config.enabled_rungs = vec![3, 1];
    config.normalize();
    assert_eq!(config.enabled_rungs, vec![3, 1]);
}

#[test]
fn flags_at_their_defaults_change_nothing() {
    let mut config = AppConfig::default();
    config.server = "http://studio:9000".into();
    config.segment_ms = 4000;
    let before = config.clone();
    config.apply_overrides(overrides());
    assert_eq!(config, before);
}

#[test]
fn other_flags_take_over() {
    let mut config = AppConfig::default();
    config.apply_overrides(Overrides {
        server: "http://x".into(),
        stream: "y".into(),
        ingest_token: Some("t".into()),
        out_dir: "/z".into(),
        segment_ms: 1000,
        auto_start_secs: Some(60),
    });
    assert_eq!(config.server, "http://x");
    assert_eq!(config.stream, "y");
    assert_eq!(config.ingest_token, "t");
    assert_eq!(config.out_dir, "/z");
    assert_eq!(config.segment_ms, 1000);
    assert!(config.auto_start);
    assert_eq!(config.auto_start_buffer_secs, 60);
    assert!(!config.mono);
}

#[test]
fn the_last_rung_stays_on() {
    let mut config = AppConfig::default();
    for rung in [0, 1, 2, 3] {
        config.apply_rung_toggle(rung, false);
    }
    assert_eq!(config.enabled_rungs, vec![3]);
    config.apply_rung_toggle(1, true);
    assert_eq!(config.enabled_rungs, vec![1, 3]);
    config.apply_rung_toggle(1, true);
    assert_eq!(config.enabled_rungs, vec![1, 3]);
}

#[test]
fn switching_a_rung_on_puts_the_list_in_order() {
    let mut config = AppConfig::default();
    config.enabled_rungs = vec![3, 0];
    config.apply_rung_toggle(2, true);
    assert_eq!(config.enabled_rungs, vec![0, 2, 3]);
}

#[test]
fn the_profile_has_the_enabled_rungs() {
    let mut config = AppConfig::default();
    config.enabled_rungs = vec![2, 1];
    let profile = config.profile();
    assert_eq!(profile.rungs.iter().map(|r| r.id).collect::<Vec<_>>(), [1, 2]);
    config.enabled_rungs = vec![77];
    assert_eq!(config.profile().low_rung(), 0);
    assert_eq!(config.profile().rungs.len(), 1);
}

#[test]
fn going_live_takes_the_settings_over() {
    let mut config = AppConfig::default();
    let start = config.go_live(8_000);
    assert_eq!(start.sample_rate, 44_100);
    assert_eq!(start.upload.ingest_token, None);
    assert_eq!(start.upload.auto_start_buffer_ms, None);
    config.ingest_token = "secret".into();
    config.auto_start = true;
    config.default_rung = 2;
    let start = config.go_live(96_000);
    assert_eq!(start.sample_rate, 96_000);
    assert_eq!(start.upload.ingest_token.as_deref(), Some("secret"));
    assert_eq!(start.upload.auto_start_buffer_ms, Some(300_000));
    assert_eq!(start.upload.bootstrap_rung, 2);
    assert_eq!(start.upload.stream, "obshow");
}

#[test]
fn the_list_of_rungs_locks_the_last_one() {
    let mut config = AppConfig::default();
    config.enabled_rungs = vec![0];
    let rows = config.rung_rows();
    assert_eq!(rows.len(), 4);
    assert_eq!(rows[0].label, "lo — 48 kbps · HE-AAC");
    assert!(rows[0].checked && rows[0].locked);
    assert_eq!(rows[3].label, "hd — 320 kbps");
    assert!(!rows[3].checked && !rows[3].locked);
}

#[test]
fn the_default_quality_is_an_enabled_one() {
    let mut config = AppConfig::default();
    config.default_rung = 3;
    assert_eq!(config.default_quality_label(), "hd (320 kbps)");
    config.enabled_rungs = vec![1, 2];
    assert_eq!(config.default_quality_label(), "mid (96 kbps)");
    config.enabled_rungs = vec![200];
    assert_eq!(config.default_quality_label(), "—");
}
