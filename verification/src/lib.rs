//! Core of a terminal-session host: the replay ring buffer, the escape-sequence
//! filters, the framed wire protocol and the decisions of the session
//! multiplexer, each with a machine-checked contract.

pub mod client;
pub mod clock;
pub mod double;
pub mod escape;
pub mod frame;
pub mod messages;
pub mod protocol;
pub mod reap;
pub mod replay;
pub mod ring_buffer;
pub mod session;
pub mod text;
pub mod throughput;
