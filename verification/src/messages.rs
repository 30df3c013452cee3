//! The typed messages of the protocol: how the host lays out each message it
//! sends, and how it reads the messages that clients send.

use vstd::prelude::*;
use vstd::slice::*;
use vstd::string::*;
use crate::double::{double_from_count, nearest_pattern};
use crate::frame::{
    be16_value, be32, be64, be64_value, encode_frame, frame_of, push_be32, push_be64, read_be16,
    read_be64,
};
use crate::protocol::{
    WS_MSG_DATA, WS_MSG_EXIT, WS_MSG_NOTIFICATION, WS_MSG_RESIZE,
    WS_MSG_SESSION_METRICS, WS_MSG_SESSION_STATE, WS_MSG_SYNC, WS_MSG_TITLE,
};

verus! {

/// The frame of a message of type `kind` with `body`.
pub open spec fn message_of(kind: u8, body: Seq<u8>) -> Seq<u8> {
    frame_of(seq![kind] + body)
}

/// A signed 32-bit number as the unsigned number with the same bits.
pub open spec fn twos_complement(code: i32) -> nat {
    if code >= 0 {
        code as nat
    } else {
        (code + 0x100000000) as nat
    }
}

/// The frame that carries output bytes to a client.
pub open spec fn data_message(bytes: Seq<u8>) -> Seq<u8> {
    message_of(WS_MSG_DATA, bytes)
}

/// The frame that tells a client the child's exit code.
pub open spec fn exit_message(code: i32) -> Seq<u8> {
    message_of(WS_MSG_EXIT, be32(twos_complement(code)))
}

/// The frame that tells a client the terminal title.
pub open spec fn title_message(title: Seq<u8>) -> Seq<u8> {
    message_of(WS_MSG_TITLE, title)
}

/// The frame that carries a notification text to a client.
pub open spec fn notification_message(text: Seq<u8>) -> Seq<u8> {
    message_of(WS_MSG_NOTIFICATION, text)
}

/// The frame that tells a client the stream offset it has reached, as the
/// nearest number there is.
pub open spec fn sync_message(total: nat) -> Seq<u8> {
    message_of(WS_MSG_SYNC, be64(nearest_pattern(total) as nat))
}

/// The frame that tells a client whether the session is active.
pub open spec fn session_state_message(active: bool) -> Seq<u8> {
    message_of(
        WS_MSG_SESSION_STATE,
        seq![if active {
            1u8
        } else {
            0u8
        }],
    )
}

/// The frame that carries the three throughput rates, given as number
/// patterns, and the total byte count.
pub open spec fn metrics_message(bps1: u64, bps5: u64, bps15: u64, total: nat) -> Seq<u8> {
    message_of(
        WS_MSG_SESSION_METRICS,
        be64(bps1 as nat) + be64(bps5 as nat) + be64(bps15 as nat) + be64(
            nearest_pattern(total) as nat,
        ),
    )
}

/// Frames a message of type `kind` with `body`.
pub fn message_frame(kind: u8, body: &[u8]) -> (frame: Vec<u8>)
    requires
        body@.len() < u32::MAX,
    ensures
        frame@ == message_of(kind, body@),
{
    let mut payload: Vec<u8> = Vec::with_capacity(body.len());
    payload.push(kind);
    payload.extend_from_slice(body);
    assert(payload@ =~= seq![kind] + body@);
    encode_frame(payload.as_slice())
}

/// The `DATA` frame for a chunk of output.
pub fn data_frame(bytes: &[u8]) -> (frame: Vec<u8>)
    requires
        bytes@.len() < u32::MAX,
    ensures
        frame@ == data_message(bytes@),
{
    message_frame(WS_MSG_DATA, bytes)
}

/// The `EXIT` frame for an exit code: the code as four big-endian bytes in
/// two's complement.
pub fn exit_frame(code: i32) -> (frame: Vec<u8>)
    ensures
        frame@ == exit_message(code),
{
    let wide: i64 = code as i64;
    let unsigned: u32 = if wide >= 0 {
        wide as u32
    } else {
        (wide + 0x100000000) as u32
    };
    let mut body: Vec<u8> = Vec::new();
    push_be32(&mut body, unsigned);
    assert(body@ =~= be32(twos_complement(code)));
    message_frame(WS_MSG_EXIT, body.as_slice())
}

/// The `TITLE` frame for a title, sent as its UTF-8 bytes.
pub fn title_frame(title: &str) -> (frame: Vec<u8>)
    requires
        title.spec_bytes().len() < u32::MAX,
    ensures
        frame@ == title_message(title.spec_bytes()),
{
    message_frame(WS_MSG_TITLE, title.as_bytes())
}

/// The `NOTIFICATION` frame for a text, sent as its UTF-8 bytes.
pub fn notification_frame(text: &str) -> (frame: Vec<u8>)
    requires
        text.spec_bytes().len() < u32::MAX,
    ensures
        frame@ == notification_message(text.spec_bytes()),
{
    message_frame(WS_MSG_NOTIFICATION, text.as_bytes())
}

/// The `SYNC` frame for a stream offset, sent as a binary64 number.
pub fn sync_frame(total: u64) -> (frame: Vec<u8>)
    ensures
        frame@ == sync_message(total as nat),
{
    let mut body: Vec<u8> = Vec::new();
    push_be64(&mut body, double_from_count(total));
    assert(body@ =~= be64(nearest_pattern(total as nat) as nat));
    message_frame(WS_MSG_SYNC, body.as_slice())
}

/// The `SESSION_STATE` frame: one byte, 1 for active and 0 for idle.
pub fn session_state_frame(active: bool) -> (frame: Vec<u8>)
    ensures
        frame@ == session_state_message(active),
{
    let mut body: Vec<u8> = Vec::new();
    body.push(if active {
        1u8
    } else {
        0u8
    });
    assert(body@ =~= seq![if active {
        1u8
    } else {
        0u8
    }]);
    message_frame(WS_MSG_SESSION_STATE, body.as_slice())
}

/// The `SESSION_METRICS` frame: the three rates, handed in as binary64
/// patterns, and the total byte count, each as eight big-endian bytes.
pub fn metrics_frame(bps1: u64, bps5: u64, bps15: u64, total: u64) -> (frame: Vec<u8>)
    ensures
        frame@ == metrics_message(bps1, bps5, bps15, total as nat),
{
    let mut body: Vec<u8> = Vec::new();
    push_be64(&mut body, bps1);
    push_be64(&mut body, bps5);
    push_be64(&mut body, bps15);
    push_be64(&mut body, double_from_count(total));
    assert(body@ =~= be64(bps1 as nat) + be64(bps5 as nat) + be64(bps15 as nat) + be64(
        nearest_pattern(total as nat) as nat,
    ));
    message_frame(WS_MSG_SESSION_METRICS, body.as_slice())
}

/// What the host does with a message from a client.
pub enum ClientAction {
    /// Write these bytes to the terminal.
    Input(Vec<u8>),
    /// Give the terminal this many columns and rows.
    Resize(u16, u16),
    /// Nothing: the message is of no use in the steady state.
    Ignore,
}

/// What a message of type `kind` with `body` asks of the host in the steady
/// state: `DATA` is input for the terminal, `RESIZE` with at least four
/// bytes is a new window size, everything else is passed over.
pub open spec fn client_action(kind: u8, body: Seq<u8>) -> ClientActionView {
    if kind == WS_MSG_DATA {
        ClientActionView::Input(body)
    } else if kind == WS_MSG_RESIZE && body.len() >= 4 {
        ClientActionView::Resize(
            be16_value(body.subrange(0, 2)) as u16,
            be16_value(body.subrange(2, 4)) as u16,
        )
    } else {
        ClientActionView::Ignore
    }
}

/// A client action with its bytes as a sequence.
pub enum ClientActionView {
    Input(Seq<u8>),
    Resize(u16, u16),
    Ignore,
}

impl View for ClientAction {
    type V = ClientActionView;

    open spec fn view(&self) -> ClientActionView {
        match self {
            ClientAction::Input(bytes) => ClientActionView::Input(bytes@),
            ClientAction::Resize(cols, rows) => ClientActionView::Resize(*cols, *rows),
            ClientAction::Ignore => ClientActionView::Ignore,
        }
    }
}

/// Decides what a message from a client asks for in the steady state.
pub fn process_client_message(msg_type: u8, data: &[u8]) -> (action: ClientAction)
    ensures
        action@ == client_action(msg_type, data@),
{
    if msg_type == WS_MSG_DATA {
        ClientAction::Input(slice_to_vec(data))
    } else if msg_type == WS_MSG_RESIZE {
        if data.len() >= 4 {
            let new_cols: u16 = read_be16(data, 0);
            let new_rows: u16 = read_be16(data, 2);
            ClientAction::Resize(new_cols, new_rows)
        } else {
            ClientAction::Ignore
        }
    } else {
        ClientAction::Ignore
    }
}

/// The number pattern in the body of a `RESUME` message: its first eight
/// bytes, or nothing if the body is shorter.
pub open spec fn resume_pattern(body: Seq<u8>) -> Option<u64> {
    if body.len() >= 8 {
        Some(be64_value(body.subrange(0, 8)) as u64)
    } else {
        None
    }
}

/// Reads the number pattern from the body of a `RESUME` message.
pub fn parse_resume(body: &[u8]) -> (pattern: Option<u64>)
    ensures
        pattern == resume_pattern(body@),
{
    if body.len() >= 8 {
        Some(read_be64(body, 0))
    } else {
        None
    }
}

} // verus!
