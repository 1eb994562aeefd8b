//! The uploader.

use obcast::inventory::{scan, RungListing};
use obcast::scheduler::{UploadAction, UploadReason};
use obcast::state::{SegCoverage, SeqNo, ServerState, StreamProfile};
use obcast::uploader::{measured_kbps, resolve_seq_offset, UploadSession};

fn state_with(live_seq: Option<SeqNo>, stale_session: bool) -> ServerState {
    let mut s = ServerState::unknown();
    s.live_seq = live_seq;
    s.stale_session = stale_session;
    s
}

#[test]
fn appends_after_the_existing_live_seq_when_not_stale() {
    assert_eq!(resolve_seq_offset(&state_with(Some(5000), false)), 5001);
}

#[test]
fn restarts_at_zero_when_stale() {
    assert_eq!(resolve_seq_offset(&state_with(Some(5000), true)), 0);
}

#[test]
fn restarts_at_zero_for_a_never_ingested_name() {
    assert_eq!(resolve_seq_offset(&state_with(None, false)), 0);
}

#[test]
fn stale_with_no_prior_content_still_starts_at_zero() {
    assert_eq!(resolve_seq_offset(&state_with(None, true)), 0);
}

fn segments(seqs: &[u64]) -> RungListing {
    RungListing {
        rung: 0,
        files: seqs.iter().map(|s| format!("{s}.ts")).collect(),
    }
}

fn session() -> UploadSession {
    UploadSession::new(&StreamProfile::default_ladder(2000), 1)
}

#[test]
fn local_segments_are_counted_on_from_the_server() {
    let mut session = session();
    let server = state_with(Some(99), false);
    session.begin_tick(&server);
    assert_eq!(session.seq_offset(), 100);
    let inv = session.inventory(scan(&vec![segments(&[0, 1, 2])]), &server);
    assert_eq!((inv.oldest_seq, inv.encoded_seq), (100, 101));
    assert!(inv.has_rung(100, 0));
    let action = UploadAction {
        seq: 101,
        rung: 0,
        reason: UploadReason::Continuity,
        priority: 0,
    };
    assert_eq!(session.local_file("/out", &action), "/out/0/1.ts");
}

#[test]
fn the_numbering_stays_once_a_segment_has_arrived() {
    let mut session = session();
    session.begin_tick(&state_with(Some(9), false));
    assert!(session.marks_new_session());
    session.begin_tick(&state_with(Some(19), false));
    assert_eq!(session.seq_offset(), 20);
    assert_eq!(session.uploaded(1_000_000, 1_000_000), 8_000);
    assert!(!session.marks_new_session());
    session.begin_tick(&state_with(Some(50), false));
    assert_eq!(session.seq_offset(), 20);
}

#[test]
fn a_gap_is_given_up_after_twenty_seconds() {
    let mut session = session();
    assert_eq!(session.check_stall(Some(5), 1_000), None);
    assert_eq!(session.check_stall(Some(5), 20_999), None);
    assert_eq!(session.check_stall(Some(5), 21_000), Some(5));
    assert_eq!(session.check_stall(Some(6), 22_000), None);
    assert_eq!(session.check_stall(None, 50_000), None);
    assert_eq!(session.check_stall(Some(6), 60_000), None);
}

#[test]
fn a_segment_that_was_given_up_counts_as_held() {
    let mut session = session();
    let mut server = state_with(None, false);
    server.coverage = vec![SegCoverage {
        seq: 3,
        best_rung: Some(2),
    }];
    let mut inv = session.inventory(scan(&vec![segments(&[0, 1, 2, 3])]), &server);
    assert_eq!(inv.server_best(3), Some(2));
    assert!(!inv.server_has_any(5));
    session.gave_up(5, &mut inv);
    assert_eq!(inv.server_best(5), Some(0));
    let inv = session.inventory(scan(&vec![segments(&[0, 1])]), &server);
    assert_eq!(inv.server_best(5), Some(0));
}

#[test]
fn telemetry_is_sent_once_a_second() {
    let mut session = session();
    let server = state_with(None, false);
    let inv = session.inventory(scan(&vec![segments(&[0, 1, 2])]), &server);
    let plan = session.plan(&StreamProfile::default_ladder(2000), &server, &inv);
    assert!(!plan.is_empty());
    let rung = session.primary_rung(&plan);
    let first = session.heartbeat(&inv, rung, Some(7), 0).unwrap();
    assert_eq!(first.rev, 1);
    assert_eq!(first.active_rungs, vec![0, 1, 2, 3]);
    assert_eq!(first.encoded_seq, Some(1));
    assert_eq!(first.backlog, 2);
    assert_eq!(first.throughput_kbps, 96 * 4);
    assert_eq!(first.auto_start_buffer_ms, Some(7));
    assert_eq!(session.heartbeat(&inv, rung, None, 999), None);
    assert_eq!(session.heartbeat(&inv, rung, None, 1_000).unwrap().rev, 2);
}

#[test]
fn telemetry_of_an_empty_disk_names_no_segment() {
    let mut session = session();
    let server = state_with(None, false);
    let inv = session.inventory(scan(&vec![]), &server);
    let plan = session.plan(&StreamProfile::default_ladder(2000), &server, &inv);
    assert!(plan.is_empty());
    let state = session
        .heartbeat(&inv, session.primary_rung(&plan), None, 0)
        .unwrap();
    assert_eq!(state.encoded_seq, None);
    assert_eq!(state.backlog, 0);
    assert_eq!(state.primary_rung, 0);
}

#[test]
fn throughput_is_measured_over_at_least_a_millisecond() {
    assert_eq!(measured_kbps(125, 1_000_000), 1);
    assert_eq!(measured_kbps(125, 0), 1_000);
    assert_eq!(measured_kbps(0, 5), 0);
    assert_eq!(measured_kbps(u64::MAX, 1), u32::MAX);
}

#[test]
fn the_backlog_counts_what_the_server_reports_missing() {
    let mut session = session();
    let mut server = state_with(None, false);
    server.coverage = vec![
        SegCoverage {
            seq: 0,
            best_rung: None,
        },
        SegCoverage {
            seq: 1,
            best_rung: Some(0),
        },
    ];
    let inv = session.inventory(scan(&vec![segments(&[0, 1, 2])]), &server);
    assert_eq!(session.heartbeat(&inv, 0, None, 0).unwrap().backlog, 1);
}
