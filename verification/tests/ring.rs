//! The ring of decoded samples.

use obcast::ring::SampleRing;

/// A ring for sixteen samples: two ms at 500 Hz are one frame, which is two
/// samples, and the ring holds eight segments of that.
fn small_ring() -> SampleRing {
    SampleRing::new(2, 500)
}

#[test]
fn ring_holds_eight_segments() {
    let mut ring = small_ring();
    let samples: Vec<u32> = (0..100).collect();
    assert_eq!(ring.feed(&samples, 0), 16);
    assert_eq!(ring.feed(&samples, 16), 16);
}

#[test]
fn samples_come_out_in_the_order_they_went_in() {
    let mut ring = small_ring();
    let samples: Vec<u32> = (1..=10).collect();
    assert_eq!(ring.feed(&samples, 0), 10);
    let mut out = vec![99; 4];
    assert_eq!(ring.fill(&mut out), 4);
    assert_eq!(out, vec![1, 2, 3, 4]);
    let more: Vec<u32> = (11..=20).collect();
    assert_eq!(ring.feed(&more, 0), 10);
    let mut rest = vec![99; 16];
    assert_eq!(ring.fill(&mut rest), 16);
    assert_eq!(rest, (5..=20).collect::<Vec<u32>>());
}

#[test]
fn feeding_goes_on_where_it_left_off() {
    let mut ring = small_ring();
    let samples: Vec<u32> = (1..=20).collect();
    let next = ring.feed(&samples, 0);
    assert_eq!(next, 16);
    let mut out = vec![0; 6];
    ring.fill(&mut out);
    assert_eq!(ring.feed(&samples, next), 20);
    let mut rest = vec![0; 14];
    assert_eq!(ring.fill(&mut rest), 14);
    assert_eq!(rest, (7..=20).collect::<Vec<u32>>());
}

#[test]
fn an_empty_ring_gives_silence() {
    let mut ring = small_ring();
    ring.feed(&vec![5, 6], 0);
    let mut out = vec![77; 5];
    assert_eq!(ring.fill(&mut out), 2);
    assert_eq!(out, vec![5, 6, 0, 0, 0]);
    let mut out = vec![77; 3];
    assert_eq!(ring.fill(&mut out), 0);
    assert_eq!(out, vec![0, 0, 0]);
}

#[test]
fn a_flush_drops_what_waits() {
    let mut ring = small_ring();
    ring.feed(&vec![1, 2, 3], 0);
    assert_eq!(ring.flush(), 3);
    assert_eq!(ring.flush(), 0);
    ring.feed(&vec![8], 0);
    let mut out = vec![1; 2];
    assert_eq!(ring.fill(&mut out), 1);
    assert_eq!(out, vec![8, 0]);
}
