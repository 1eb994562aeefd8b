//! Backlog of status and error messages.

use std::collections::VecDeque;
use vstd::prelude::*;

use crate::control::{LogEntry, LogLevel};

verus! {

/// Most lines that are kept.
pub const CAPACITY: usize = 200;

/// The last lines logged, oldest first.
pub struct LogSink {
    backlog: VecDeque<LogEntry>,
}

/// The backlog after one more line: the oldest one goes when it is full.
pub open spec fn appended(lines: Seq<LogEntry>, entry: LogEntry) -> Seq<LogEntry> {
    if lines.len() >= CAPACITY {
        lines.drop_first().push(entry)
    } else {
        lines.push(entry)
    }
}

/// Copies a line.
pub fn copy_entry(e: &LogEntry) -> (c: LogEntry)
    ensures
        c == *e,
{
    LogEntry { at_ms: e.at_ms, level: e.level, message: e.message.clone() }
}

/// Copies the lines of a backlog, oldest first.
pub fn copy_entries(lines: &VecDeque<LogEntry>) -> (copy: Vec<LogEntry>)
    ensures
        copy@ == lines@,
{
    let mut copy: Vec<LogEntry> = Vec::new();
    let mut i: usize = 0;
    while i < lines.len()
        invariant
            i <= lines@.len(),
            copy@ == lines@.take(i as int),
        decreases lines@.len() - i,
    {
        copy.push(copy_entry(&lines[i]));
        i = i + 1;
    }
    assert(copy@ =~= lines@);
    copy
}

impl LogSink {
    /// The lines kept, oldest first.
    pub closed spec fn lines(&self) -> Seq<LogEntry> {
        self.backlog@
    }

    pub fn new() -> (sink: Self)
        ensures
            sink.lines() == Seq::<LogEntry>::empty(),
    {
        let sink = LogSink { backlog: VecDeque::new() };
        assert(sink.lines() =~= Seq::<LogEntry>::empty());
        sink
    }

    /// Records a line, and returns it for those who listen live.
    pub fn push(&mut self, at_ms: u64, level: LogLevel, message: String) -> (entry: LogEntry)
        ensures
            entry == (LogEntry { at_ms, level, message }),
            final(self).lines() == appended(old(self).lines(), entry),
    {
        let entry = LogEntry { at_ms, level, message };
        if self.backlog.len() >= CAPACITY {
            self.backlog.pop_front();
            assert(self.backlog@ =~= old(self).lines().drop_first());
        }
        self.backlog.push_back(copy_entry(&entry));
        entry
    }

    /// The lines kept, oldest first.
    pub fn recent(&self) -> (lines: Vec<LogEntry>)
        ensures
            lines@ == self.lines(),
    {
        copy_entries(&self.backlog)
    }
}

impl Default for LogSink {
    fn default() -> (sink: Self)
        ensures
            sink.lines() == Seq::<LogEntry>::empty(),
    {
        LogSink::new()
    }
}

/// A backlog never outgrows its capacity, and a new line is always its last.
pub proof fn law_backlog_is_capped_and_keeps_the_newest(lines: Seq<LogEntry>, entry: LogEntry)
    requires
        lines.len() <= CAPACITY,
    ensures
        appended(lines, entry).len() <= 200,
        appended(lines, entry).last() == entry,
        lines.len() < CAPACITY ==> appended(lines, entry).drop_last() == lines,
        lines.len() == CAPACITY ==> appended(lines, entry).drop_last() == lines.drop_first(),
{
    assert(appended(lines, entry).drop_last() =~= (if lines.len() >= CAPACITY {
        lines.drop_first()
    } else {
        lines
    }));
}

} // verus!
