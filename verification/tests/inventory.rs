//! The encoder's segments on disk.

use obcast::inventory::{scan, RungListing};

fn listing(rung: u8, files: &[&str]) -> RungListing {
    RungListing {
        rung,
        files: files.iter().map(|f| f.to_string()).collect(),
    }
}

#[test]
fn the_file_being_written_is_withheld() {
    let result = scan(&vec![
        listing(0, &["2.ts", "0.ts", "1.ts"]),
        listing(1, &["0.ts", "1.ts"]),
    ]);
    assert_eq!(result.oldest_seq, 0);
    assert_eq!(result.encoded_seq, 1);
    assert_eq!(result.available.get(&0), Some(&vec![0, 1]));
    assert_eq!(result.available.get(&1), Some(&vec![0]));
    assert_eq!(result.available.get(&2), None);
}

#[test]
fn other_files_do_not_count() {
    let result = scan(&vec![listing(0, &["x.ts", "5.tmp", "7.ts", "8.ts", "9"])]);
    assert_eq!(result.available.keys().copied().collect::<Vec<_>>(), [7]);
    assert_eq!((result.oldest_seq, result.encoded_seq), (7, 7));
}

#[test]
fn an_empty_disk_has_no_segments() {
    let result = scan(&vec![listing(0, &[]), listing(1, &["3.ts"])]);
    assert!(result.available.is_empty());
    assert_eq!((result.oldest_seq, result.encoded_seq), (0, 0));
}
