//! Waveforms.

use std::path::Path;

use obcast::control::LogLevel;
use obcast::state::{AacCodec, Rung, SeqNo, StreamProfile, WaterLevels};
use obcast::store::DvrStore;
use obcast::waveform::{
    build_from_index, decode_args, extract_peaks, samples_from_le, scale_to_i8, snapshot_index,
    waveform_warnings, SegmentAudio, WaveformJson,
};

fn profile() -> StreamProfile {
    StreamProfile {
        segment_ms: 2000,
        rungs: vec![Rung {
            id: 0,
            name: "lo".into(),
            bitrate_kbps: 32,
            codec: AacCodec::He,
        }],
    }
}

fn store(dir: &str) -> DvrStore {
    DvrStore::new(profile(), WaterLevels::default(), 60_000, dir.to_string(), 0)
}

fn build(store: &DvrStore, profile: &StreamProfile, start: SeqNo, end: SeqNo) -> WaveformJson {
    let entries = snapshot_index(store, start, end);
    let audio: Vec<SegmentAudio> = entries
        .iter()
        .map(|(_, entry)| match entry {
            None => SegmentAudio::Missing,
            Some((_, path)) if !Path::new(path).exists() => SegmentAudio::Missing,
            Some(_) => SegmentAudio::Undecodable,
        })
        .collect();
    build_from_index(profile, &entries, &audio)
}

#[test]
fn gap_segments_are_not_flagged_as_decode_failures() {
    let store = store("/tmp/obcast-waveform-test-gap");
    let json = build(&store, &profile(), 0, 0);
    assert!(json.rungs.iter().all(|r| r.is_none()));
    assert!(
        json.decode_failed.iter().all(|f| !f),
        "a true gap must not be flagged as a decode failure"
    );
}

#[test]
fn indexed_but_missing_file_is_flagged_as_a_decode_failure() {
    let mut store = store("/tmp/obcast-waveform-test-missing");
    store.record(0, 0, None);
    let json = build(&store, &profile(), 0, 0);
    assert!(json.rungs.iter().all(|r| *r == Some(0)));
    assert!(
        json.decode_failed.iter().all(|f| *f),
        "an indexed-but-missing-on-disk segment must be flagged as a decode failure"
    );
}

#[test]
fn peaks_are_the_extremes_of_each_point() {
    assert_eq!(scale_to_i8(i16::MIN), -128);
    assert_eq!(scale_to_i8(i16::MAX), 127);
    assert_eq!(scale_to_i8(-1), -1);
    let samples = [256, -512, 0, 1024, 2048];
    assert_eq!(extract_peaks(&samples, 2, 2), vec![(-2, 1), (0, 8)]);
    assert_eq!(
        extract_peaks(&samples[..2], 2, 3),
        vec![(-2, 1), (0, 0), (0, 0)]
    );
    assert_eq!(samples_from_le(&[1, 0, 255, 255, 9]), vec![1, -1]);
}

#[test]
fn every_segment_is_equally_wide() {
    let entries = vec![
        (4, Some((0, "/d/0/4.ts".to_string()))),
        (5, None),
        (6, Some((0, "/d/0/6.ts".to_string()))),
    ];
    let audio = vec![
        SegmentAudio::Samples(vec![256; 16_000]),
        SegmentAudio::Samples(vec![256; 16_000]),
        SegmentAudio::Undecodable,
    ];
    let json = build_from_index(&profile(), &entries, &audio);
    assert_eq!(json.version, 2);
    assert_eq!(json.channels, 1);
    assert_eq!(json.bits, 8);
    assert_eq!(json.sample_rate, 8_000);
    assert_eq!(json.samples_per_pixel, 320);
    assert_eq!(json.length, 150);
    assert_eq!(json.data.len(), 300);
    assert_eq!(&json.data[..2], &[1, 1]);
    assert_eq!(json.seqs[49], 4);
    assert_eq!(json.seqs[50], 5);
    assert_eq!(json.rungs[50], None);
    assert!(!json.decode_failed[50]);
    assert!(json.data[100..].iter().all(|v| *v == 0));
    assert!(json.decode_failed[100]);
}

#[test]
fn failures_are_logged() {
    let entries = vec![
        (4, Some((1, "/d/1/4.ts".to_string()))),
        (5, None),
        (6, Some((0, "/d/0/6.ts".to_string()))),
        (7, Some((2, "/d/2/7.ts".to_string()))),
    ];
    let audio = vec![
        SegmentAudio::Missing,
        SegmentAudio::Missing,
        SegmentAudio::Samples(vec![]),
        SegmentAudio::Undecodable,
    ];
    assert_eq!(
        waveform_warnings(&entries, &audio),
        vec![
            (
                LogLevel::Warn,
                "waveform: segment 4 (rung 1) recorded in the DVR index but missing on disk"
                    .to_string()
            ),
            (
                LogLevel::Warn,
                "waveform: failed to decode segment 7 (rung 2), rendering as a flagged flat line"
                    .to_string()
            ),
        ]
    );
    let json = build_from_index(&profile(), &entries, &audio);
    assert!(json.decode_failed[0] && !json.decode_failed[50]);
    assert!(!json.decode_failed[100] && json.decode_failed[150]);
    assert_eq!(
        decode_args("/d/0/4.ts").join(" "),
        "-hide_banner -loglevel error -i /d/0/4.ts -f s16le -ac 1 -ar 8000 -"
    );
}
