//! What the web remote sends to the server and reads from it.

use vstd::prelude::*;

use crate::state::{EncoderState, RungId, SeqNo, ServerState};

verus! {

/// Where playout starts or jumps to.
#[derive(Clone, Copy, Debug, PartialEq, Eq, Structural)]
pub enum PlayoutPosition {
    /// The newest segment.
    Live,
    /// A given segment.
    Segment(SeqNo),
    /// So many seconds behind the start of the live segment.
    SecondsBehindLive(u32),
    /// So many milliseconds behind the end of the live segment.
    MillisBehindLive(u64),
}

/// Commands to the playout engine.
#[derive(Clone, Debug, PartialEq, Eq)]
pub enum PlayoutCommand {
    /// Starts hardware output.
    Start { position: PlayoutPosition },
    Stop,
    Pause,
    Resume,
    /// Jumps within the DVR window.
    Seek { position: PlayoutPosition },
    /// Jumps to the live edge.
    GoLive,
    SetDevice { device_id: String },
    /// Linear gain in thousandths.
    SetVolume { gain_millis: u32 },
    /// Overrides the hardware output with a test tone.
    SetTestTone { enabled: bool },
}

/// A hardware audio output of the server.
#[derive(Clone, Debug, PartialEq, Eq)]
pub struct AudioDevice {
    pub id: String,
    pub name: String,
    pub is_default: bool,
}

/// Health of the link, for operators.
#[derive(Clone, Copy, Debug, PartialEq, Eq, Structural)]
pub struct LinkHealth {
    pub connected: bool,
    /// Age of the newest segment received.
    pub last_segment_age_ms: u32,
    /// The rung that is on air.
    pub current_rung: Option<RungId>,
    pub throughput_kbps: u32,
    /// Permanent gaps in the DVR window: segments that were given up and have not
    /// come.
    pub gaps: u32,
}

/// Severity of a logged message.
#[derive(Clone, Copy, Debug, PartialEq, Eq, Structural)]
pub enum LogLevel {
    Info,
    Warn,
    Error,
}

/// One status or error line.
#[derive(Clone, Debug, PartialEq, Eq)]
pub struct LogEntry {
    /// Wall clock, in ms since the Unix epoch.
    pub at_ms: u64,
    pub level: LogLevel,
    pub message: String,
}

/// Everything that a web client needs to render the player.
#[derive(Clone, Debug, PartialEq, Eq)]
pub struct ControlStatus {
    pub stream: String,
    pub server: ServerState,
    /// Last known encoder telemetry.
    pub encoder: Option<EncoderState>,
    pub link: LinkHealth,
    /// Recent log lines, oldest first.
    pub recent_log: Vec<LogEntry>,
}

} // verus!
