//! The server's log.

use obcast::control::LogLevel;
use obcast::logs::{LogSink, CAPACITY};

#[test]
fn the_backlog_keeps_the_newest_lines() {
    let mut sink = LogSink::new();
    assert!(sink.recent().is_empty());
    for i in 0..(CAPACITY as u64 + 5) {
        let entry = sink.push(i, LogLevel::Warn, format!("line {i}"));
        assert_eq!(entry.at_ms, i);
    }
    let lines = sink.recent();
    assert_eq!(lines.len(), 200);
    assert_eq!(lines[0].message, "line 5");
    assert_eq!(lines[199].message, "line 204");
    assert_eq!(lines[199].level, LogLevel::Warn);
}
