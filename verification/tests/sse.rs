//! The state feed.

use obcast::sse::{frame_data, FeedBuffer};

#[test]
fn frames_end_in_an_empty_line() {
    let mut feed = FeedBuffer::new();
    assert_eq!(
        feed.push(b"event: state\ndata: {\"rev\":1}\n\ndata: two\n\n"),
        vec!["{\"rev\":1}", "two"]
    );
}

#[test]
fn a_frame_may_come_in_pieces() {
    let mut feed = FeedBuffer::new();
    assert!(feed.push(b"event: state\nda").is_empty());
    assert!(feed.push_text("ta: abc\n").is_empty());
    assert_eq!(feed.push(b"\ndata: d"), vec!["abc"]);
    assert_eq!(feed.push(b"\n\n"), vec!["d"]);
}

#[test]
fn a_frame_without_data_is_dropped() {
    let mut feed = FeedBuffer::new();
    assert!(feed.push(b": keep-alive\n\n").is_empty());
    assert_eq!(frame_data("event: state"), None);
    assert_eq!(frame_data("data:tight"), None);
}

#[test]
fn the_first_data_line_counts() {
    assert_eq!(frame_data("data: one\r\ndata: two").unwrap(), "one");
    assert_eq!(frame_data("data: ").unwrap(), "");
    assert_eq!(frame_data("data: one\r").unwrap(), "one\r");
}

#[test]
fn what_is_not_text_is_replaced() {
    let mut feed = FeedBuffer::new();
    assert_eq!(feed.push(b"data: a\xffb\n\n"), vec!["a\u{fffd}b"]);
    assert_eq!(feed.push("data: é\n\n".as_bytes()), vec!["é"]);
}

#[test]
fn every_chunk_is_read_by_itself() {
    let mut feed = FeedBuffer::new();
    assert!(feed.push(b"data: \xc3").is_empty());
    assert_eq!(feed.push(b"\xa9\n\n"), vec!["\u{fffd}\u{fffd}"]);
}
