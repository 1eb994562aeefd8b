//! The upload plan.

use std::collections::BTreeMap;

use obcast::scheduler::{
    plan_uploads, stalled_continuity_seq, LocalInventory, SchedulerInput, UploadAction,
    UploadReason,
};
use obcast::state::{
    PlayoutState, PlayoutStatus, RungId, SeqNo, ServerState, StreamProfile, WaterLevels,
};

fn profile() -> StreamProfile {
    StreamProfile::default_ladder(2000)
}

fn server(state: PlayoutState, pos: Option<SeqNo>, water: WaterLevels) -> ServerState {
    server_with_fed(state, pos, None, water)
}

fn server_with_fed(
    state: PlayoutState,
    pos: Option<SeqNo>,
    fed: Option<SeqNo>,
    water: WaterLevels,
) -> ServerState {
    ServerState {
        rev: 1,
        live_seq: Some(50),
        dvr_start_seq: Some(0),
        playout: PlayoutStatus {
            state,
            position_seq: pos,
            playing_rung: None,
            fed_seq: fed,
            position_ms_into_segment: 0,
            device: None,
            volume_millis: 1000,
            detail: None,
            test_tone: false,
        },
        frontier_seq: pos,
        lead_ms: 0,
        water,
        coverage: vec![],
        buffered_ms: 0,
        stale_session: false,
    }
}

fn inv_full(oldest: SeqNo, newest: SeqNo, server_best: &[(SeqNo, Option<RungId>)]) -> LocalInventory {
    let mut available = BTreeMap::new();
    for s in oldest..=newest {
        available.insert(s, vec![0, 1, 2, 3]);
    }
    LocalInventory {
        encoded_seq: newest,
        oldest_seq: oldest,
        available,
        server_best: server_best.iter().copied().collect(),
    }
}

#[test]
fn draining_flaky_link_sends_low_rung_at_playout_head_only() {
    let water = WaterLevels {
        low_ms: 4000,
        target_ms: 8000,
        high_ms: 16000,
    };
    let srv = server(PlayoutState::Playing, Some(20), water);
    let inv = inv_full(0, 50, &[]);
    let input = SchedulerInput {
        profile: &profile(),
        server: &srv,
        inv: &inv,
        throughput_kbps: 40,
        headroom_permille: 900,
        max_actions: 8,
        preferred_rung: 0,
    };
    let plan = plan_uploads(&input);

    assert!(!plan.is_empty());
    assert!(plan.iter().all(|a| a.rung == 0));
    assert!(plan.iter().all(|a| a.reason == UploadReason::Continuity));
    assert!(plan.iter().all(|a| a.seq >= 20));
    assert_eq!(plan[0].seq, 20);
    assert!(plan.iter().all(|a| a.reason != UploadReason::Upgrade));
}

#[test]
fn healthy_link_upgrades_only_ahead_of_playout_head() {
    let water = WaterLevels {
        low_ms: 4000,
        target_ms: 8000,
        high_ms: 10000,
    };
    let srv = server(PlayoutState::Playing, Some(30), water);
    let cov: Vec<(SeqNo, Option<RungId>)> = (25..=50).map(|s| (s, Some(0))).collect();
    let inv = inv_full(0, 50, &cov);
    let input = SchedulerInput {
        profile: &profile(),
        server: &srv,
        inv: &inv,
        throughput_kbps: 5000,
        headroom_permille: 900,
        max_actions: 20,
        preferred_rung: 0,
    };
    let plan = plan_uploads(&input);

    let upgrades: Vec<_> = plan
        .iter()
        .filter(|a| a.reason == UploadReason::Upgrade)
        .collect();
    assert!(!upgrades.is_empty(), "expected some HD upgrades");
    assert!(upgrades.iter().all(|a| a.seq > 30));
    assert_eq!(upgrades.iter().map(|a| a.seq).min(), Some(31));
}

#[test]
fn upgrades_never_target_a_seq_already_fed_to_the_decoder() {
    let water = WaterLevels {
        low_ms: 4000,
        target_ms: 8000,
        high_ms: 10000,
    };
    let srv = server_with_fed(PlayoutState::Playing, Some(30), Some(32), water);
    let cov: Vec<(SeqNo, Option<RungId>)> = (25..=50).map(|s| (s, Some(0))).collect();
    let inv = inv_full(0, 50, &cov);
    let input = SchedulerInput {
        profile: &profile(),
        server: &srv,
        inv: &inv,
        throughput_kbps: 5000,
        headroom_permille: 900,
        max_actions: 20,
        preferred_rung: 0,
    };
    let plan = plan_uploads(&input);

    let upgrades: Vec<_> = plan
        .iter()
        .filter(|a| a.reason == UploadReason::Upgrade)
        .collect();
    assert!(!upgrades.is_empty(), "expected some HD upgrades beyond 32");
    assert!(
        upgrades.iter().all(|a| a.seq > 32),
        "an upgrade landed at or behind the already-fed boundary (32): {upgrades:?}"
    );
    assert_eq!(upgrades.iter().map(|a| a.seq).min(), Some(33));
}

#[test]
fn upgrades_still_happen_when_feed_ahead_outruns_the_anchor_relative_window() {
    let water = WaterLevels {
        low_ms: 4000,
        target_ms: 8000,
        high_ms: 10000,
    };
    let srv = server_with_fed(PlayoutState::Playing, Some(30), Some(38), water);
    let cov: Vec<(SeqNo, Option<RungId>)> = (25..=50).map(|s| (s, Some(0))).collect();
    let inv = inv_full(0, 50, &cov);
    let input = SchedulerInput {
        profile: &profile(),
        server: &srv,
        inv: &inv,
        throughput_kbps: 5000,
        headroom_permille: 900,
        max_actions: 20,
        preferred_rung: 0,
    };
    let plan = plan_uploads(&input);
    let upgrades: Vec<_> = plan
        .iter()
        .filter(|a| a.reason == UploadReason::Upgrade)
        .collect();
    assert!(
        !upgrades.is_empty(),
        "expected upgrades past the feed boundary (38), got none"
    );
    assert!(
        upgrades.iter().all(|a| a.seq > 38),
        "an upgrade landed at or behind the already-fed boundary (38): {upgrades:?}"
    );
    assert_eq!(upgrades.iter().map(|a| a.seq).min(), Some(39));
    assert!(
        upgrades.iter().all(|a| a.seq <= 43),
        "upgrade window should stay capped at already_fed + cap_segs (43): {upgrades:?}"
    );
}

#[test]
fn never_backfills_hd_into_already_played_segments() {
    let water = WaterLevels {
        low_ms: 4000,
        target_ms: 8000,
        high_ms: 10000,
    };
    let srv = server(PlayoutState::Playing, Some(40), water);
    let cov: Vec<(SeqNo, Option<RungId>)> = (0..=50).map(|s| (s, Some(0))).collect();
    let inv = inv_full(0, 50, &cov);
    let input = SchedulerInput {
        profile: &profile(),
        server: &srv,
        inv: &inv,
        throughput_kbps: 5000,
        headroom_permille: 900,
        max_actions: 50,
        preferred_rung: 0,
    };
    let plan = plan_uploads(&input);
    assert!(plan
        .iter()
        .all(|a| a.seq > 40 || a.reason != UploadReason::Upgrade));
}

#[test]
fn stalled_continuity_seq_is_none_when_frontier_is_healthy() {
    let water = WaterLevels::default();
    let srv = server(PlayoutState::Playing, Some(20), water);
    let inv = inv_full(0, 50, &[]);
    assert_eq!(stalled_continuity_seq(&srv, &inv, &profile()), None);
}

#[test]
fn stalled_continuity_seq_is_none_when_gap_is_still_uploadable() {
    let water = WaterLevels::default();
    let srv = server(PlayoutState::Playing, Some(20), water);
    let inv = inv_full(0, 50, &[]);
    assert_eq!(stalled_continuity_seq(&srv, &inv, &profile()), None);
}

#[test]
fn stalled_continuity_seq_finds_a_genuine_permanent_gap() {
    let water = WaterLevels::default();
    let srv = server(PlayoutState::Playing, Some(20), water);
    let mut inv = inv_full(0, 50, &[]);
    inv.available.remove(&20);
    assert_eq!(stalled_continuity_seq(&srv, &inv, &profile()), Some(20));
}

#[test]
fn stalled_continuity_seq_excludes_the_still_writing_newest_seq() {
    let water = WaterLevels::default();
    let srv = server(PlayoutState::Playing, Some(20), water);
    let mut inv = inv_full(0, 20, &[]);
    inv.available.remove(&20);
    assert_eq!(stalled_continuity_seq(&srv, &inv, &profile()), None);
}

#[test]
fn far_behind_head_rebuilds_to_high_ms_and_still_fills_the_live_edge() {
    let water = WaterLevels {
        low_ms: 4000,
        target_ms: 8000,
        high_ms: 16000,
    };
    let srv = server(PlayoutState::Playing, Some(5), water);
    let inv = inv_full(0, 205, &[]);
    let input = SchedulerInput {
        profile: &profile(),
        server: &srv,
        inv: &inv,
        throughput_kbps: 5000,
        headroom_permille: 900,
        max_actions: 100,
        preferred_rung: 0,
    };
    let plan = plan_uploads(&input);

    assert!(!plan.is_empty());
    let continuity: Vec<_> = plan
        .iter()
        .filter(|a| a.reason == UploadReason::Continuity)
        .collect();
    assert_eq!(
        continuity.iter().map(|a| a.seq).collect::<Vec<_>>(),
        (5..=12).collect::<Vec<_>>(),
        "continuity should rebuild the full high_ms margin (8 segments from the anchor): {continuity:?}"
    );
    assert!(continuity.iter().all(|a| a.rung == 0));

    let live_edge: Vec<_> = plan
        .iter()
        .filter(|a| a.reason == UploadReason::LiveEdge)
        .collect();
    assert!(
        live_edge.iter().all(|a| a.seq >= 202),
        "live edge should still only touch its own tail window: {live_edge:?}"
    );
    assert!(!live_edge.is_empty());

    for mid in [50, 100, 150, 201] {
        assert!(plan.iter().all(|a| a.seq != mid));
    }

    let upgrades: Vec<_> = plan
        .iter()
        .filter(|a| a.reason == UploadReason::Upgrade)
        .collect();
    assert!(
        upgrades.iter().all(|a| a.seq > 12),
        "an upgrade landed inside the just-rebuilt continuity window: {upgrades:?}"
    );
}

#[test]
fn after_reconnect_rebuilds_the_full_margin_before_any_upgrade_across_ticks() {
    let water = WaterLevels {
        low_ms: 4000,
        target_ms: 8000,
        high_ms: 300_000,
    };
    let seg_ms = 2000u32;
    let total_segs = (water.high_ms / seg_ms) as u64;
    let profile = profile();
    let srv_base = |anchor: SeqNo| server(PlayoutState::Playing, Some(anchor), water);

    let anchor: SeqNo = 1000;
    let encoded_seq = anchor + total_segs + 200;
    let mut server_best: BTreeMap<SeqNo, Option<RungId>> = BTreeMap::new();

    let mut ticks = 0u32;
    let mut first_upgrade_tick = None;
    let mut saw_any_upgrade_before_rebuild = false;
    loop {
        ticks += 1;
        assert!(ticks < 100, "rebuild should complete well within 100 ticks");

        let inv = LocalInventory {
            encoded_seq,
            oldest_seq: 0,
            available: (0..=encoded_seq).map(|s| (s, vec![0, 1, 2, 3])).collect(),
            server_best: server_best.clone(),
        };
        let srv = srv_base(anchor);
        let input = SchedulerInput {
            profile: &profile,
            server: &srv,
            inv: &inv,
            throughput_kbps: 5000,
            headroom_permille: 900,
            max_actions: 16,
            preferred_rung: 0,
        };
        let plan = plan_uploads(&input);

        for a in &plan {
            if a.reason == UploadReason::Continuity {
                server_best.insert(a.seq, Some(a.rung));
            }
        }

        let rebuilt_segs = (0..total_segs)
            .filter(|i| server_best.get(&(anchor + i)) == Some(&Some(0)))
            .count() as u64;
        let rebuild_complete = rebuilt_segs >= total_segs;

        if plan.iter().any(|a| a.reason == UploadReason::Upgrade) {
            if first_upgrade_tick.is_none() {
                first_upgrade_tick = Some(ticks);
            }
            if !rebuild_complete {
                saw_any_upgrade_before_rebuild = true;
            }
        }

        if rebuild_complete && plan.iter().all(|a| a.reason != UploadReason::Continuity) {
            break;
        }
    }

    assert!(
        !saw_any_upgrade_before_rebuild,
        "an upgrade fired before the {total_segs}-segment margin was fully rebuilt"
    );
    assert!(
        first_upgrade_tick.is_some(),
        "expected upgrades to start once the margin was rebuilt"
    );
    assert!(
        ticks > 1,
        "the 150-segment rebuild should take multiple ticks at a 16-action/tick cap, not complete in one"
    );
}

#[test]
fn misconfigured_water_levels_with_low_above_target_stays_in_survival() {
    let water = WaterLevels {
        low_ms: 8000,
        target_ms: 4000,
        high_ms: 2000,
    };
    let srv = server(PlayoutState::Playing, Some(20), water);
    let inv = inv_full(0, 50, &[]);
    let input = SchedulerInput {
        profile: &profile(),
        server: &srv,
        inv: &inv,
        throughput_kbps: 5000,
        headroom_permille: 900,
        max_actions: 50,
        preferred_rung: 0,
    };
    let plan = plan_uploads(&input);

    assert!(!plan.is_empty());
    assert!(plan.iter().all(|a| a.reason == UploadReason::Continuity));
    assert!(plan.iter().all(|a| a.rung == 0));
    assert!(plan.iter().all(|a| a.seq >= 20));
    assert!(plan.iter().all(|a| a.reason != UploadReason::LiveEdge));
    assert!(plan.iter().all(|a| a.reason != UploadReason::Upgrade));
}

#[test]
fn misconfigured_water_levels_all_zero_does_not_panic() {
    let water = WaterLevels {
        low_ms: 0,
        target_ms: 0,
        high_ms: 0,
    };
    let srv = server(PlayoutState::Playing, Some(20), water);
    let inv = inv_full(0, 50, &[]);
    let input = SchedulerInput {
        profile: &profile(),
        server: &srv,
        inv: &inv,
        throughput_kbps: 5000,
        headroom_permille: 900,
        max_actions: 50,
        preferred_rung: 0,
    };
    let plan = plan_uploads(&input);
    assert!(plan
        .iter()
        .filter(|a| a.reason == UploadReason::Upgrade)
        .all(|a| a.seq > 20));
}

#[test]
fn stopped_protects_live_edge() {
    let water = WaterLevels::default();
    let srv = server(PlayoutState::Stopped, None, water);
    let cov: Vec<(SeqNo, Option<RungId>)> = (0..=40).map(|s| (s, Some(0))).collect();
    let inv = inv_full(0, 50, &cov);
    let input = SchedulerInput {
        profile: &profile(),
        server: &srv,
        inv: &inv,
        throughput_kbps: 5000,
        headroom_permille: 900,
        max_actions: 20,
        preferred_rung: 0,
    };
    let plan = plan_uploads(&input);
    assert!(plan.iter().any(|a| a.seq >= 41));
}

#[test]
fn errored_playout_anchors_on_live_edge_same_as_stopped() {
    let water = WaterLevels::default();
    let srv = server(PlayoutState::Error, None, water);
    let cov: Vec<(SeqNo, Option<RungId>)> = (0..=40).map(|s| (s, Some(0))).collect();
    let inv = inv_full(0, 50, &cov);
    let input = SchedulerInput {
        profile: &profile(),
        server: &srv,
        inv: &inv,
        throughput_kbps: 5000,
        headroom_permille: 900,
        max_actions: 20,
        preferred_rung: 0,
    };
    let plan = plan_uploads(&input);
    assert!(plan.iter().any(|a| a.seq >= 41));
}

#[test]
fn continuity_uses_the_lowest_enabled_rung_when_rung_zero_is_disabled() {
    let filtered = profile().filtered(&[1, 2, 3].into_iter().collect());
    assert_eq!(
        filtered.low_rung(),
        1,
        "rung 1 is now the effective survival rung"
    );

    let water = WaterLevels {
        low_ms: 4000,
        target_ms: 8000,
        high_ms: 16000,
    };
    let srv = server(PlayoutState::Playing, Some(20), water);
    let inv = inv_full(0, 50, &[]);
    let input = SchedulerInput {
        profile: &filtered,
        server: &srv,
        inv: &inv,
        throughput_kbps: 100,
        headroom_permille: 900,
        max_actions: 8,
        preferred_rung: 1,
    };
    let plan = plan_uploads(&input);

    assert!(!plan.is_empty());
    assert!(
        plan.iter().all(|a| a.rung == 1),
        "must use rung 1, never disabled rung 0"
    );
    assert!(plan.iter().all(|a| a.reason == UploadReason::Continuity));
}

#[test]
fn upgrades_never_ratchet_into_a_disabled_top_rung() {
    let filtered = profile().filtered(&[0, 1, 2].into_iter().collect());
    let water = WaterLevels {
        low_ms: 4000,
        target_ms: 8000,
        high_ms: 10000,
    };
    let srv = server(PlayoutState::Playing, Some(30), water);

    let mut server_best: BTreeMap<SeqNo, Option<RungId>> =
        (25..=50).map(|s| (s, Some(1))).collect();

    for _ in 0..6 {
        let inv = LocalInventory {
            encoded_seq: 50,
            oldest_seq: 0,
            available: (0..=50).map(|s| (s, vec![0, 1, 2, 3])).collect(),
            server_best: server_best.clone(),
        };
        let input = SchedulerInput {
            profile: &filtered,
            server: &srv,
            inv: &inv,
            throughput_kbps: 5000,
            headroom_permille: 900,
            max_actions: 20,
            preferred_rung: 0,
        };
        let plan: Vec<UploadAction> = plan_uploads(&input);
        assert!(
            plan.iter().all(|a| a.rung != 3),
            "disabled rung 3 must never be targeted, tick plan: {plan:?}"
        );
        for a in &plan {
            server_best.insert(a.seq, Some(a.rung));
        }
    }

    assert!(
        (31..=35).all(|s| server_best.get(&s) == Some(&Some(2))),
        "expected every upgraded segment to plateau at the enabled top rung (2): {server_best:?}"
    );
}

#[test]
fn live_edge_prefers_the_operator_chosen_default_rung_when_budget_allows() {
    let water = WaterLevels {
        low_ms: 4000,
        target_ms: 8000,
        high_ms: 16000,
    };
    let srv = server(PlayoutState::Playing, Some(20), water);
    let cov: Vec<(SeqNo, Option<RungId>)> = (20..=30).map(|s| (s, Some(0))).collect();
    let inv = inv_full(0, 50, &cov);
    let input = SchedulerInput {
        profile: &profile(),
        server: &srv,
        inv: &inv,
        throughput_kbps: 5000,
        headroom_permille: 900,
        max_actions: 20,
        preferred_rung: 3,
    };
    let plan = plan_uploads(&input);

    let live_edge: Vec<_> = plan
        .iter()
        .filter(|a| a.reason == UploadReason::LiveEdge)
        .collect();
    assert!(!live_edge.is_empty(), "expected some live-edge coverage");
    assert!(
        live_edge.iter().all(|a| a.rung == 3),
        "live edge should use the operator's preferred rung when affordable: {live_edge:?}"
    );
}

#[test]
fn live_edge_falls_back_to_low_rung_when_preferred_rung_exceeds_budget() {
    let water = WaterLevels {
        low_ms: 4000,
        target_ms: 8000,
        high_ms: 16000,
    };
    let srv = server(PlayoutState::Playing, Some(20), water);
    let cov: Vec<(SeqNo, Option<RungId>)> = (20..=30).map(|s| (s, Some(0))).collect();
    let inv = inv_full(0, 50, &cov);
    let input = SchedulerInput {
        profile: &profile(),
        server: &srv,
        inv: &inv,
        throughput_kbps: 60,
        headroom_permille: 900,
        max_actions: 20,
        preferred_rung: 3,
    };
    let plan = plan_uploads(&input);

    let live_edge: Vec<_> = plan
        .iter()
        .filter(|a| a.reason == UploadReason::LiveEdge)
        .collect();
    assert!(
        !live_edge.is_empty(),
        "expected a low-rung fallback, not silence"
    );
    assert!(
        live_edge.iter().all(|a| a.rung == 0),
        "starved link must fall back to the cheap low rung: {live_edge:?}"
    );
}

#[test]
fn live_edge_falls_back_to_low_rung_when_preferred_rung_not_locally_available() {
    let water = WaterLevels {
        low_ms: 4000,
        target_ms: 8000,
        high_ms: 16000,
    };
    let srv = server(PlayoutState::Playing, Some(20), water);
    let cov: Vec<(SeqNo, Option<RungId>)> = (20..=30).map(|s| (s, Some(0))).collect();
    let mut inv = inv_full(0, 50, &cov);
    for s in 31..=50 {
        inv.available.insert(s, vec![0]);
    }
    let input = SchedulerInput {
        profile: &profile(),
        server: &srv,
        inv: &inv,
        throughput_kbps: 5000,
        headroom_permille: 900,
        max_actions: 20,
        preferred_rung: 3,
    };
    let plan = plan_uploads(&input);

    let live_edge: Vec<_> = plan
        .iter()
        .filter(|a| a.reason == UploadReason::LiveEdge)
        .collect();
    assert!(!live_edge.is_empty());
    assert!(
        live_edge.iter().all(|a| a.rung == 0),
        "must fall back to low when the preferred rung isn't on disk yet: {live_edge:?}"
    );
}

#[test]
fn continuity_ignores_preferred_rung_even_with_ample_budget() {
    let water = WaterLevels {
        low_ms: 4000,
        target_ms: 8000,
        high_ms: 16000,
    };
    let srv = server(PlayoutState::Playing, Some(20), water);
    let inv = inv_full(0, 50, &[]);
    let input = SchedulerInput {
        profile: &profile(),
        server: &srv,
        inv: &inv,
        throughput_kbps: 5000,
        headroom_permille: 900,
        max_actions: 8,
        preferred_rung: 3,
    };
    let plan = plan_uploads(&input);

    assert!(!plan.is_empty());
    assert!(
        plan.iter()
            .filter(|a| a.reason == UploadReason::Continuity)
            .all(|a| a.rung == 0),
        "continuity must never use preferred_rung: {plan:?}"
    );
}

#[test]
fn continuity_prefers_operator_chosen_rung_while_stopped_and_uninitialized() {
    let water = WaterLevels {
        low_ms: 4000,
        target_ms: 8000,
        high_ms: 16000,
    };
    let srv = server(PlayoutState::Stopped, None, water);
    let inv = inv_full(0, 55, &[]);
    let input = SchedulerInput {
        profile: &profile(),
        server: &srv,
        inv: &inv,
        throughput_kbps: 5000,
        headroom_permille: 900,
        max_actions: 20,
        preferred_rung: 1,
    };
    let plan = plan_uploads(&input);

    let continuity: Vec<_> = plan
        .iter()
        .filter(|a| a.reason == UploadReason::Continuity)
        .collect();
    assert!(!continuity.is_empty(), "expected pre-roll uploads");
    assert!(
        continuity.iter().all(|a| a.rung == 1),
        "continuity should bank the operator's preferred rung while no \
         playout head is being defended: {continuity:?}"
    );
}

#[test]
fn continuity_falls_back_to_low_rung_while_stopped_when_preferred_rung_unaffordable() {
    let water = WaterLevels {
        low_ms: 4000,
        target_ms: 8000,
        high_ms: 16000,
    };
    let srv = server(PlayoutState::Stopped, None, water);
    let inv = inv_full(0, 55, &[]);
    let input = SchedulerInput {
        profile: &profile(),
        server: &srv,
        inv: &inv,
        throughput_kbps: 60,
        headroom_permille: 900,
        max_actions: 20,
        preferred_rung: 3,
    };
    let plan = plan_uploads(&input);

    let continuity: Vec<_> = plan
        .iter()
        .filter(|a| a.reason == UploadReason::Continuity)
        .collect();
    assert!(
        !continuity.is_empty(),
        "starved link must still fill pre-roll segments, not go silent"
    );
    assert!(
        continuity.iter().all(|a| a.rung == 0),
        "starved link must fall back to the cheap low rung: {continuity:?}"
    );
}

#[test]
fn continuity_falls_back_to_low_rung_while_stopped_when_preferred_rung_not_locally_available() {
    let water = WaterLevels {
        low_ms: 4000,
        target_ms: 8000,
        high_ms: 16000,
    };
    let srv = server(PlayoutState::Stopped, None, water);
    let mut inv = inv_full(0, 55, &[]);
    for s in 0..=55 {
        inv.available.insert(s, vec![0]);
    }
    let input = SchedulerInput {
        profile: &profile(),
        server: &srv,
        inv: &inv,
        throughput_kbps: 5000,
        headroom_permille: 900,
        max_actions: 20,
        preferred_rung: 1,
    };
    let plan = plan_uploads(&input);

    let continuity: Vec<_> = plan
        .iter()
        .filter(|a| a.reason == UploadReason::Continuity)
        .collect();
    assert!(!continuity.is_empty());
    assert!(
        continuity.iter().all(|a| a.rung == 0),
        "must fall back to low when the preferred rung isn't on disk yet: {continuity:?}"
    );
}

#[test]
fn the_plan_is_ordered_capped_and_names_no_segment_twice() {
    let srv = server(PlayoutState::Playing, Some(10), WaterLevels::default());
    let inv = inv_full(0, 50, &[(10, Some(0)), (12, Some(1)), (13, None)]);
    let plan = plan_uploads(&SchedulerInput {
        profile: &profile(),
        server: &srv,
        inv: &inv,
        throughput_kbps: 5000,
        headroom_permille: 900,
        max_actions: 7,
        preferred_rung: 2,
    });
    assert_eq!(plan.len(), 7);
    assert_eq!(plan[0].seq, 11);
    assert!(plan.windows(2).all(|w| w[0].priority <= w[1].priority));
    let mut seqs: Vec<_> = plan.iter().map(|a| a.seq).collect();
    seqs.dedup();
    assert_eq!(seqs.len(), 7);
}

#[test]
fn nothing_on_disk_means_nothing_to_send() {
    let srv = ServerState::unknown();
    let inv = LocalInventory::default();
    let plan = plan_uploads(&SchedulerInput {
        profile: &profile(),
        server: &srv,
        inv: &inv,
        throughput_kbps: 5000,
        headroom_permille: 900,
        max_actions: 16,
        preferred_rung: 0,
    });
    assert!(plan.is_empty());
}

#[test]
fn one_step_up_per_plan() {
    let water = WaterLevels {
        low_ms: 4000,
        target_ms: 8000,
        high_ms: 10000,
    };
    let srv = server(PlayoutState::Playing, Some(30), water);
    let cov: Vec<(SeqNo, Option<RungId>)> = (25..=50).map(|s| (s, Some(0))).collect();
    let inv = inv_full(0, 50, &cov);
    let plan = plan_uploads(&SchedulerInput {
        profile: &profile(),
        server: &srv,
        inv: &inv,
        throughput_kbps: 50_000,
        headroom_permille: 900,
        max_actions: 20,
        preferred_rung: 0,
    });
    let upgrades: Vec<_> = plan
        .iter()
        .filter(|a| a.reason == UploadReason::Upgrade)
        .collect();
    assert!(!upgrades.is_empty());
    assert!(upgrades.iter().all(|a| a.rung == 1));
}

#[test]
fn the_most_urgent_segment_comes_first_in_every_tier() {
    let water = WaterLevels {
        low_ms: 4000,
        target_ms: 8000,
        high_ms: 10000,
    };
    let srv = server(PlayoutState::Playing, Some(30), water);
    let held: Vec<(SeqNo, Option<RungId>)> = (30..=46).map(|s| (s, Some(0))).collect();
    let inv = inv_full(0, 50, &held);
    let mut input = SchedulerInput {
        profile: &profile(),
        server: &srv,
        inv: &inv,
        throughput_kbps: 50_000,
        headroom_permille: 900,
        max_actions: 20,
        preferred_rung: 0,
    };
    let seqs: Vec<SeqNo> = plan_uploads(&input).iter().map(|a| a.seq).collect();
    assert_eq!(seqs, vec![50, 49, 48, 47, 31, 32, 33, 34, 35]);

    let empty = inv_full(0, 50, &[]);
    input.inv = &empty;
    let plan = plan_uploads(&input);
    let seqs: Vec<SeqNo> = plan.iter().map(|a| a.seq).collect();
    assert_eq!(seqs[..9], [30, 31, 32, 33, 34, 50, 49, 48, 47]);
    assert!(plan[..5].iter().all(|a| a.reason == UploadReason::Continuity));
    assert!(plan[5..9].iter().all(|a| a.reason == UploadReason::LiveEdge));
    assert!(plan[9..].iter().all(|a| a.reason == UploadReason::Upgrade));
}

#[test]
fn without_news_only_the_low_rung_is_sent() {
    let srv = ServerState::unknown();
    let inv = inv_full(0, 2, &[]);
    let input = SchedulerInput {
        profile: &profile(),
        server: &srv,
        inv: &inv,
        throughput_kbps: 5000,
        headroom_permille: 900,
        max_actions: 16,
        preferred_rung: 3,
    };
    let sent: Vec<_> = plan_uploads(&input)
        .iter()
        .map(|a| (a.seq, a.rung, a.reason, a.priority))
        .collect();
    assert_eq!(
        sent,
        vec![
            (0, 0, UploadReason::Continuity, 0),
            (1, 0, UploadReason::Continuity, 1),
            (2, 0, UploadReason::Continuity, 2),
        ]
    );
}
