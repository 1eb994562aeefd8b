//! Resilient contribution-link broadcasting: the verified core.
//!
//! An encoder cuts audio into numbered segments, encodes each of them at
//! several bitrates ("rungs") and uploads them over a link that may be slow or
//! absent. A server keeps the segments it received in a time-shift (DVR)
//! window, plays one of them out on its audio hardware, and serves all of them
//! to web listeners. Each end tells the other what it holds.
//!
//! This library holds every decision the two ends take, as functions on plain
//! values. Reading clocks, files, sockets and audio devices is left to the
//! programs that use it.

pub mod alarm;
pub mod api;
pub mod capture;
pub mod config;
pub mod control;
pub mod control_laws;
pub mod cover_laws;
pub mod debug;
pub mod encode;
pub mod encode_laws;
pub mod ingest;
pub mod inventory;
pub mod live;
pub mod logs;
pub mod loop_laws;
pub mod origin;
pub mod panel;
pub mod plan_laws;
pub mod playout;
pub mod playout_laws;
pub mod ring;
pub mod scheduler;
pub mod shared;
pub mod shows;
pub mod sorted;
pub mod sse;
pub mod state;
pub mod store;
pub mod store_laws;
pub mod text;
pub mod tone;
pub mod uploader;
pub mod waveform;
