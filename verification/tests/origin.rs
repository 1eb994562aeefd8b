//! Playlists.

use std::collections::BTreeSet;

use obcast::origin::{
    master_playlist, no_such_stream, playlist_body, rendition_playlist, rendition_tail,
    segment_source, Tail,
};
use obcast::state::{SeqNo, StreamProfile, WaterLevels};
use obcast::store::DvrStore;

#[test]
fn every_entry_position_equals_its_true_seq_number() {
    let present: BTreeSet<SeqNo> = [10, 11, 13, 14].into_iter().collect();
    let body = playlist_body(2000, 10, 14, |s| present.contains(&s));
    assert_eq!(
        body,
        "#EXTINF:2.000,\n\
         10.ts\n\
         #EXTINF:2.000,\n\
         11.ts\n\
         #EXT-X-GAP\n\
         #EXTINF:2.000,\n\
         12.ts\n\
         #EXTINF:2.000,\n\
         13.ts\n\
         #EXTINF:2.000,\n\
         14.ts\n"
    );
}

#[test]
fn a_late_arrival_only_flips_its_own_entry_and_leaves_every_other_position_untouched() {
    let before: BTreeSet<SeqNo> = [10, 11, 13, 14].into_iter().collect();
    let after: BTreeSet<SeqNo> = [10, 11, 12, 13, 14].into_iter().collect();

    let uris = |body: &str| -> Vec<String> {
        body.lines()
            .filter(|l| l.ends_with(".ts"))
            .map(String::from)
            .collect()
    };
    let before_uris = uris(&playlist_body(2000, 10, 14, |s| before.contains(&s)));
    let after_uris = uris(&playlist_body(2000, 10, 14, |s| after.contains(&s)));

    let slot_of = |uris: &[String], uri: &str| uris.iter().position(|u| u == uri);
    assert_eq!(
        slot_of(&before_uris, "13.ts"),
        slot_of(&after_uris, "13.ts")
    );
    assert_eq!(
        slot_of(&before_uris, "14.ts"),
        slot_of(&after_uris, "14.ts")
    );
}

#[test]
fn no_gap_marker_when_every_seq_in_range_has_media() {
    let body = playlist_body(2000, 5, 7, |_| true);
    assert!(!body.contains("GAP"));
    assert_eq!(body.matches("#EXTINF").count(), 3);
}

#[test]
fn single_seq_range_is_one_entry() {
    let body = playlist_body(2000, 5, 5, |s| s == 5);
    assert_eq!(body, "#EXTINF:2.000,\n5.ts\n");
}

fn store() -> DvrStore {
    let mut store = DvrStore::new(
        StreamProfile::default_ladder(2500),
        WaterLevels::default(),
        0,
        "/d".into(),
        0,
    );
    store.record(1, 3, None);
    store.record(2, 5, None);
    store
}

#[test]
fn the_master_playlist_lists_every_rung() {
    assert_eq!(
        master_playlist(&StreamProfile::default_ladder(2000).filtered(&[0, 3].into_iter().collect())),
        "#EXTM3U\n#EXT-X-VERSION:3\n\
         #EXT-X-STREAM-INF:BANDWIDTH=48000,CODECS=\"mp4a.40.5\"\n0/index.m3u8\n\
         #EXT-X-STREAM-INF:BANDWIDTH=320000,CODECS=\"mp4a.40.2\"\n3/index.m3u8\n"
    );
}

#[test]
fn a_rendition_playlist_slides_with_the_window() {
    assert_eq!(
        rendition_playlist(&store()),
        "#EXTM3U\n#EXT-X-VERSION:3\n#EXT-X-TARGETDURATION:3\n#EXT-X-MEDIA-SEQUENCE:3\n\
         #EXTINF:2.500,\n3.ts\n#EXT-X-GAP\n#EXTINF:2.500,\n4.ts\n#EXTINF:2.500,\n5.ts\n"
    );
}

#[test]
fn an_empty_rendition_playlist_has_no_entries() {
    let empty = DvrStore::new(
        StreamProfile::default_ladder(2000),
        WaterLevels::default(),
        0,
        "/d".into(),
        0,
    );
    assert_eq!(
        rendition_playlist(&empty),
        "#EXTM3U\n#EXT-X-VERSION:3\n#EXT-X-TARGETDURATION:2\n"
    );
}

#[test]
fn requests_are_told_apart() {
    assert_eq!(rendition_tail("index.m3u8"), Tail::Playlist);
    assert_eq!(rendition_tail("17.ts"), Tail::Segment(17));
    assert_eq!(rendition_tail("x.ts"), Tail::BadRequest);
    assert_eq!(rendition_tail("17.mp3"), Tail::NotFound);
}

#[test]
fn a_missing_rendition_falls_back_to_the_best_one() {
    let store = store();
    assert_eq!(
        segment_source(&store, 1, 3),
        Some((1, "/d/1/3.ts".to_string()))
    );
    assert_eq!(
        segment_source(&store, 0, 5),
        Some((2, "/d/2/5.ts".to_string()))
    );
    assert_eq!(segment_source(&store, 0, 4), None);
    assert_eq!(no_such_stream("x").0, 404);
    assert_eq!(no_such_stream("x").1, "no such stream: x");
}

#[test]
fn the_last_number_there_is_has_an_entry_too() {
    let body = playlist_body(2000, u64::MAX - 1, u64::MAX, |_| true);
    assert!(body.ends_with("18446744073709551615.ts\n"));
    assert_eq!(body.matches(".ts").count(), 2);
}
