//! Message type bytes and the tunable limits of the wire protocol.

use vstd::prelude::*;

verus! {

/// Terminal output, or keystrokes on the way to the terminal.
pub const WS_MSG_DATA: u8 = 0x00;

/// A new window size: columns and rows, two bytes each.
pub const WS_MSG_RESIZE: u8 = 0x01;

/// The child's exit code, four bytes.
pub const WS_MSG_EXIT: u8 = 0x02;

/// Scrollback sent on attach, as it is.
pub const WS_MSG_BUFFER_REPLAY: u8 = 0x03;

/// The terminal title.
pub const WS_MSG_TITLE: u8 = 0x04;

/// A notification lifted out of the output stream.
pub const WS_MSG_NOTIFICATION: u8 = 0x05;

/// The byte offset a returning client already holds.
pub const WS_MSG_RESUME: u8 = 0x10;

/// The byte offset the client holds after a replay.
pub const WS_MSG_SYNC: u8 = 0x11;

/// Whether the session is active or idle, one byte.
pub const WS_MSG_SESSION_STATE: u8 = 0x12;

/// Scrollback sent on attach, gzip-compressed.
pub const WS_MSG_BUFFER_REPLAY_GZ: u8 = 0x13;

/// Throughput figures.
pub const WS_MSG_SESSION_METRICS: u8 = 0x14;

/// Capacity of the replay buffer in bytes.
pub const BUFFER_SIZE: usize = 10485760;

/// Replays at least this long are offered to the compressor.
pub const GZIP_THRESHOLD: usize = 4096;

/// Silence after which a session counts as idle.
pub const IDLE_TIMEOUT_MS: u64 = 60000;

/// Period of the metadata flush.
pub const JSON_WRITE_INTERVAL_MS: u64 = 5000;

/// Period of the metrics broadcast.
pub const METRICS_INTERVAL_MS: u64 = 3000;

/// How long a new client may take to send its first frame.
pub const RESUME_TIMEOUT_MS: u64 = 100;

} // verus!
