//! What a client is sent when it attaches: the scrollback it asked for, then
//! the offset it has reached, the title, whether the session is active and,
//! if the child is gone, its exit code.

use vstd::prelude::*;
use vstd::slice::*;
use vstd::string::*;
use vstd::utf8::encode_utf8;
use crate::double::{count_from_double, is_positive, resume_count};
use crate::escape::{lemma_strip_len, strip_queries, strip_terminal_queries};
use crate::messages::{
    exit_frame, exit_message, message_frame, message_of, parse_resume, resume_pattern,
    session_state_frame, session_state_message, sync_frame, sync_message, title_frame,
    title_message,
};
use crate::protocol::{GZIP_THRESHOLD, WS_MSG_BUFFER_REPLAY, WS_MSG_BUFFER_REPLAY_GZ};
use crate::ring_buffer::{delta_of, lemma_first_newline, sanitized};
use crate::session::{frame_views, SharedState};

verus! {

/// The gzip stream that the compressor makes of `data` at its fastest
/// level, with the header it writes by default.
pub uninterp spec fn gzip_fast(data: Seq<u8>) -> Seq<u8>;

/// Compresses `data` with `flate2::write::GzEncoder` at
/// `Compression::fast()`, writing into a vector.
///
/// Trusted: when the encoder reports no error, the bytes are the gzip
/// stream of `data`, the same for the same data.
#[verifier::external_body]
fn gzip_compress(data: &[u8]) -> (compressed: Option<Vec<u8>>)
    ensures
        compressed.is_some() ==> compressed.unwrap()@ == gzip_fast(data@),
{
    let mut encoder = flate2::write::GzEncoder::new(Vec::new(), flate2::Compression::fast());
    if std::io::Write::write_all(&mut encoder, data).is_err() {
        return None;
    }
    match encoder.finish() {
        Ok(bytes) => Some(bytes),
        Err(_) => None,
    }
}

/// The replay message for the bytes `cleaned`, given what the compressor
/// made of them, if it made anything. No message for no bytes. Compressed
/// when there are at least the threshold of bytes and the compressed form
/// is strictly shorter; as they are otherwise.
pub open spec fn replay_message(cleaned: Seq<u8>, compressed: Option<Seq<u8>>) -> Option<Seq<u8>> {
    if cleaned.len() == 0 {
        None
    } else if cleaned.len() >= GZIP_THRESHOLD && compressed.is_some() && compressed.unwrap().len()
        < cleaned.len() {
        Some(message_of(WS_MSG_BUFFER_REPLAY_GZ, compressed.unwrap()))
    } else {
        Some(message_of(WS_MSG_BUFFER_REPLAY, cleaned))
    }
}

/// Chooses the replay frame for `cleaned`, given the outcome of the
/// compressor.
pub fn replay_frame(cleaned: &[u8], compressed: Option<Vec<u8>>) -> (frame: Option<Vec<u8>>)
    requires
        cleaned@.len() < u32::MAX,
    ensures
        match replay_message(
            cleaned@,
            match compressed {
                Some(bytes) => Some(bytes@),
                None => None,
            },
        ) {
            Some(message) => frame.is_some() && frame.unwrap()@ == message,
            None => frame.is_none(),
        },
{
    if cleaned.len() == 0 {
        return None;
    }
    if cleaned.len() >= GZIP_THRESHOLD {
        match compressed {
            Some(bytes) => {
                if bytes.len() < cleaned.len() {
                    return Some(message_frame(WS_MSG_BUFFER_REPLAY_GZ, bytes.as_slice()));
                }
            },
            None => {},
        }
    }
    Some(message_frame(WS_MSG_BUFFER_REPLAY, cleaned))
}

/// The messages that follow the scrollback: `SYNC` with the count of bytes
/// written, `TITLE` if a title is set, and `SESSION_STATE`.
pub open spec fn status_messages(state: SharedState) -> Seq<Seq<u8>> {
    seq![sync_message(state.output_buffer.total())] + (match state.title {
        Some(title) => seq![title_message(encode_utf8(title@))],
        None => Seq::<Seq<u8>>::empty(),
    }) + seq![session_state_message(state.session_active)]
}

/// The whole replay for the bytes `selected` from the buffer: the replay
/// message for them without their interactive queries, if anything is left,
/// and the status messages.
pub open spec fn replay_sequence(
    state: SharedState,
    selected: Seq<u8>,
    compressed: Option<Seq<u8>>,
) -> Seq<Seq<u8>> {
    (match replay_message(strip_queries(selected), compressed) {
        Some(message) => seq![message],
        None => Seq::<Seq<u8>>::empty(),
    }) + status_messages(state)
}

/// Puts a replay together from the bytes to replay, already without their
/// queries, and the outcome of the compressor.
pub fn assemble_replay(state: &SharedState, cleaned: &[u8], compressed: Option<Vec<u8>>) -> (frames:
    Vec<Vec<u8>>)
    requires
        state.wf(),
        cleaned@.len() < u32::MAX,
    ensures
        frame_views(frames@) == (match replay_message(
            cleaned@,
            match compressed {
                Some(bytes) => Some(bytes@),
                None => None,
            },
        ) {
            Some(message) => seq![message],
            None => Seq::<Seq<u8>>::empty(),
        }) + status_messages(*state),
{
    let mut frames: Vec<Vec<u8>> = Vec::new();
    match replay_frame(cleaned, compressed) {
        Some(frame) => {
            frames.push(frame);
        },
        None => {},
    }
    frames.push(sync_frame(state.output_buffer.total_written()));
    match &state.title {
        Some(title) => {
            frames.push(title_frame(title.as_str()));
        },
        None => {},
    }
    frames.push(session_state_frame(state.session_active));
    assert(frame_views(frames@) =~= (match replay_message(
        cleaned@,
        match compressed {
            Some(bytes) => Some(bytes@),
            None => None,
        },
    ) {
        Some(message) => seq![message],
        None => Seq::<Seq<u8>>::empty(),
    }) + status_messages(*state));
    frames
}

/// The frames that replay `selected` to a client: the bytes without their
/// interactive queries, compressed if that pays, then the status messages.
/// The compressor is asked only for replays of at least the threshold; if it
/// fails, the bytes go as they are.
pub fn send_replay(state: &SharedState, selected: &[u8]) -> (frames: Vec<Vec<u8>>)
    requires
        state.wf(),
        selected@.len() < u32::MAX,
    ensures
        frame_views(frames@) == replay_sequence(*state, selected@, None) || frame_views(frames@)
            == replay_sequence(*state, selected@, Some(gzip_fast(strip_queries(selected@)))),
{
    let cleaned = strip_terminal_queries(selected);
    proof {
        lemma_strip_len(selected@, 0);
    }
    let compressed = if cleaned.len() >= GZIP_THRESHOLD {
        gzip_compress(cleaned.as_slice())
    } else {
        None
    };
    assemble_replay(state, cleaned.as_slice(), compressed)
}

/// The frames of a full replay: everything the buffer holds, aligned to a
/// line start once the buffer has wrapped.
pub fn send_full_replay(state: &SharedState) -> (frames: Vec<Vec<u8>>)
    requires
        state.wf(),
    ensures
        frame_views(frames@) == replay_sequence(*state, state.output_buffer.replay_view(), None)
            || frame_views(frames@) == replay_sequence(
            *state,
            state.output_buffer.replay_view(),
            Some(gzip_fast(strip_queries(state.output_buffer.replay_view()))),
        ),
{
    let selected = state.output_buffer.read();
    proof {
        state.output_buffer.lemma_invariants();
        lemma_first_newline(state.output_buffer@, 0);
    }
    send_replay(state, selected.as_slice())
}

/// The bytes to replay to a client that resumes with `body`: what it missed,
/// if its offset is a number greater than zero whose bytes the buffer still
/// holds; everything, as for a full replay, in every other case.
pub open spec fn resume_selection(state: SharedState, body: Seq<u8>) -> Seq<u8> {
    match resume_pattern(body) {
        None => state.output_buffer.replay_view(),
        Some(pattern) => match resume_count(pattern) {
            None => state.output_buffer.replay_view(),
            Some(offset) => match delta_of(
                state.output_buffer@,
                state.output_buffer.total(),
                offset as nat,
            ) {
                Some(delta) => delta,
                None => state.output_buffer.replay_view(),
            },
        },
    }
}

/// A `RESUME` whose body is shorter than the eight bytes of a number is
/// answered with a full replay.
pub proof fn lemma_short_resume_is_full_replay(state: SharedState, body: Seq<u8>)
    requires
        body.len() < 8,
    ensures
        resume_selection(state, body) == state.output_buffer.replay_view(),
{
}

/// A `RESUME` whose number is not finite or not greater than zero is
/// answered with a full replay.
pub proof fn lemma_resume_without_offset_is_full_replay(state: SharedState, body: Seq<u8>)
    requires
        body.len() >= 8,
        !is_positive(resume_pattern(body).unwrap()),
    ensures
        resume_selection(state, body) == state.output_buffer.replay_view(),
{
}

/// Selects the bytes to replay to a client that resumes with `body`.
pub fn select_for_resume(state: &SharedState, body: &[u8]) -> (selected: Vec<u8>)
    requires
        state.wf(),
    ensures
        selected@ == resume_selection(*state, body@),
        selected@.len() <= state.output_buffer.capacity(),
{
    proof {
        state.output_buffer.lemma_invariants();
        lemma_first_newline(state.output_buffer@, 0);
    }
    match parse_resume(body) {
        None => state.output_buffer.read(),
        Some(pattern) => match count_from_double(pattern) {
            None => state.output_buffer.read(),
            Some(offset) => match state.output_buffer.read_from(offset) {
                Some(delta) => delta,
                None => state.output_buffer.read(),
            },
        },
    }
}

/// The frames that answer a `RESUME` message with `data` as its body: the
/// bytes the client missed if its offset can be served, a full replay if
/// not, and the status messages.
pub fn handle_resume(state: &SharedState, data: &[u8]) -> (frames: Vec<Vec<u8>>)
    requires
        state.wf(),
    ensures
        frame_views(frames@) == replay_sequence(*state, resume_selection(*state, data@), None)
            || frame_views(frames@) == replay_sequence(
            *state,
            resume_selection(*state, data@),
            Some(gzip_fast(strip_queries(resume_selection(*state, data@)))),
        ),
{
    let selected = select_for_resume(state, data);
    send_replay(state, selected.as_slice())
}

/// The `EXIT` message for a client that attaches after the child is gone.
pub open spec fn exit_messages(state: SharedState) -> Seq<Seq<u8>> {
    match state.exit_code {
        Some(code) => seq![exit_message(code)],
        None => Seq::<Seq<u8>>::empty(),
    }
}

/// The `EXIT` frame for a client that attaches after the child is gone.
pub fn exit_notice(state: &SharedState) -> (frame: Option<Vec<u8>>)
    ensures
        match state.exit_code {
            Some(code) => frame.is_some() && frame.unwrap()@ == exit_message(code),
            None => frame.is_none(),
        },
{
    match state.exit_code {
        Some(code) => Some(exit_frame(code)),
        None => None,
    }
}

} // verus!
