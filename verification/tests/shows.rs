//! The shows on disk.

use obcast::ingest::ApiError;
use obcast::shows::{
    add_show, delete_show, duration_ms_from_seqs, parse_seq, validate_show_name, RemoveOutcome,
    ShowDiskStats, ShowInfo,
};

#[test]
fn parse_seq_accepts_ts_files() {
    assert_eq!(parse_seq("42.ts"), Some(42));
    assert_eq!(parse_seq("0.ts"), Some(0));
}

#[test]
fn parse_seq_rejects_other_files() {
    assert_eq!(parse_seq("42.m3u8"), None);
    assert_eq!(parse_seq("notaseq.ts"), None);
    assert_eq!(parse_seq("42"), None);
}

#[test]
fn duration_ms_from_seqs_empty_is_none() {
    assert_eq!(duration_ms_from_seqs(&[], 2000), None);
}

#[test]
fn duration_ms_from_seqs_single_seq_is_one_segment() {
    assert_eq!(duration_ms_from_seqs(&[7], 2000), Some(2000));
}

#[test]
fn duration_ms_from_seqs_spans_min_max_regardless_of_order_or_duplicates() {
    assert_eq!(
        duration_ms_from_seqs(&[5, 2, 5, 9, 2], 2000),
        Some(8 * 2000)
    );
}

#[test]
fn validate_show_name_accepts_normal_names() {
    assert!(validate_show_name("obshow").is_ok());
    assert!(validate_show_name("my-show_1").is_ok());
}

#[test]
fn validate_show_name_rejects_traversal_and_empty() {
    assert!(validate_show_name("").is_err());
    assert!(validate_show_name("..").is_err());
    assert!(validate_show_name(".").is_err());
    assert!(validate_show_name("../etc").is_err());
    assert!(validate_show_name("foo/bar").is_err());
    assert!(validate_show_name("foo\\bar").is_err());
}

fn show(name: &str, modified_unix_ms: u64) -> ShowInfo {
    ShowInfo {
        name: name.into(),
        live: false,
        segment_count: 0,
        size_bytes: 0,
        duration_ms: None,
        modified_unix_ms,
    }
}

#[test]
fn shows_are_listed_newest_first() {
    let mut shows = Vec::new();
    for (name, at) in [("a", 5), ("b", 9), ("c", 5), ("d", 1)] {
        add_show(&mut shows, show(name, at));
    }
    let names: Vec<_> = shows.iter().map(|s| s.name.as_str()).collect();
    assert_eq!(names, ["b", "a", "c", "d"]);
}

#[test]
fn a_scan_counts_segments() {
    let mut stats = ShowDiskStats::new();
    stats.add_modified(7);
    stats.add_modified(3);
    stats.add_file("4.ts", 100);
    stats.add_file("notes.txt", 9);
    stats.add_file("6.ts", 50);
    assert_eq!(stats.segment_count, 2);
    assert_eq!(stats.size_bytes, 150);
    assert_eq!(stats.modified_unix_ms, 7);
    assert_eq!(duration_ms_from_seqs(&stats.seqs, 1_000), Some(3_000));
    assert_eq!(duration_ms_from_seqs(&[0, u64::MAX], 1_000), Some(u64::MAX));
}

#[test]
fn deleting_a_show_is_answered() {
    let gone = || RemoveOutcome::NotFound;
    assert_eq!(delete_show("s", false, RemoveOutcome::Removed), Ok(204));
    assert_eq!(delete_show("s", true, gone()), Ok(204));
    assert_eq!(
        delete_show("s", false, gone()),
        Err(ApiError(404, "no such show: s".into()))
    );
    assert_eq!(
        delete_show("s", true, RemoveOutcome::Failed("busy".into())),
        Err(ApiError(500, "busy".into()))
    );
}

#[test]
fn file_names_read_back() {
    for seq in [0u64, 7, u64::MAX] {
        assert_eq!(parse_seq(&format!("{seq}.ts")), Some(seq));
    }
    assert_eq!(
        validate_show_name("a/b").unwrap_err(),
        ApiError(400, "invalid show name".into())
    );
}
