use flate2::read::GzDecoder;
use pty_host::messages::{exit_frame, session_state_frame, sync_frame, title_frame};
use pty_host::replay::{
    assemble_replay, exit_notice, handle_resume, replay_frame, select_for_resume, send_full_replay,
    send_replay,
};
use pty_host::session::{SessionMeta, SharedState};
use std::io::Read;

fn fresh(capacity: usize) -> SharedState {
    let meta = SessionMeta::started(
        String::from("id"),
        String::from("sh"),
        Vec::new(),
        String::from("/"),
        80,
        24,
        1,
        1000,
        String::from("2026-01-01T00:00:00.000Z"),
    );
    SharedState::new(meta, capacity)
}

fn framed(kind: u8, body: &[u8]) -> Vec<u8> {
    let mut frame = ((body.len() + 1) as u32).to_be_bytes().to_vec();
    frame.push(kind);
    frame.extend_from_slice(body);
    frame
}

fn gunzip(bytes: &[u8]) -> Vec<u8> {
    let mut decoder = GzDecoder::new(bytes);
    let mut out = Vec::new();
    decoder.read_to_end(&mut out).unwrap();
    out
}

fn noise(len: usize) -> Vec<u8> {
    let mut seed: u64 = 0x2545f4914f6cdd1d;
    let mut out = Vec::with_capacity(len);
    for _ in 0..len {
        seed ^= seed << 13;
        seed ^= seed >> 7;
        seed ^= seed << 17;
        let b = (seed >> 24) as u8;
        out.push(if b == 0x1b { 0x1c } else { b });
    }
    out
}

#[test]
fn replay_frame_of_nothing_is_no_frame() {
    assert_eq!(replay_frame(b"", None), None);
    assert_eq!(replay_frame(b"", Some(vec![1, 2, 3])), None);
}

#[test]
fn replay_frame_below_the_threshold_is_never_compressed() {
    let cleaned = vec![b'A'; 4095];
    assert_eq!(replay_frame(&cleaned, Some(vec![1, 2, 3])), Some(framed(0x03, &cleaned)));
    assert_eq!(replay_frame(b"small", None), Some(framed(0x03, b"small")));
}

#[test]
fn replay_frame_is_compressed_only_if_strictly_shorter() {
    let cleaned = vec![b'A'; 4096];
    assert_eq!(replay_frame(&cleaned, Some(vec![9; 4095])), Some(framed(0x13, &vec![9; 4095])));
    assert_eq!(replay_frame(&cleaned, Some(vec![9; 4096])), Some(framed(0x03, &cleaned)));
    assert_eq!(replay_frame(&cleaned, Some(vec![9; 5000])), Some(framed(0x03, &cleaned)));
    assert_eq!(replay_frame(&cleaned, None), Some(framed(0x03, &cleaned)));
}

#[test]
fn replay_of_an_empty_buffer_is_status_only() {
    let state = fresh(64);
    let frames = send_full_replay(&state);
    assert_eq!(frames, vec![sync_frame(0), session_state_frame(true)]);
}

#[test]
fn replay_sequence_is_scrollback_sync_title_state() {
    let mut state = fresh(64);
    state.note_title(b"\x1b]2;vim\x07");
    state.record_output(b"hello", 2000, String::from("t"));
    state.session_active = false;
    let frames = send_full_replay(&state);
    assert_eq!(
        frames,
        vec![framed(0x03, b"hello"), sync_frame(5), title_frame("vim"), session_state_frame(false)]
    );
    let frames = assemble_replay(&state, b"xyz", None);
    assert_eq!(
        frames,
        vec![framed(0x03, b"xyz"), sync_frame(5), title_frame("vim"), session_state_frame(false)]
    );
}

#[test]
fn replay_strips_interactive_queries() {
    let mut state = fresh(256);
    state.record_output(b"visible\x1b[6nhidden_query\x1b[cmore_visible", 2000, String::from("t"));
    let frames = send_full_replay(&state);
    assert_eq!(frames[0], framed(0x03, b"visiblehidden_querymore_visible"));
    assert_eq!(frames[1], sync_frame(38));
    let only_queries = send_replay(&state, b"\x1b[6n\x1b[c");
    assert_eq!(only_queries, vec![sync_frame(38), session_state_frame(true)]);
}

#[test]
fn repetitive_replay_is_sent_compressed() {
    let mut state = fresh(16384);
    let original = vec![b'A'; 8192];
    state.record_output(&original, 2000, String::from("t"));
    let frames = send_full_replay(&state);
    assert_eq!(frames.len(), 3);
    let replay = &frames[0];
    let len = u32::from_be_bytes([replay[0], replay[1], replay[2], replay[3]]) as usize;
    assert_eq!(len + 4, replay.len());
    assert_eq!(replay[4], 0x13);
    assert!(len - 1 < original.len());
    assert_eq!(&replay[5..7], &[0x1f, 0x8b]);
    assert_eq!(gunzip(&replay[5..]), original);
    assert_eq!(frames[1], sync_frame(8192));
}

#[test]
fn incompressible_replay_is_sent_as_it_is() {
    let mut state = fresh(16384);
    let original = noise(5000);
    state.record_output(&original, 2000, String::from("t"));
    let frames = send_full_replay(&state);
    assert_eq!(frames[0], framed(0x03, &original));
}

#[test]
fn replay_at_the_threshold_may_be_compressed() {
    let mut state = fresh(16384);
    let just_below = vec![b'y'; 4095];
    let frames = send_replay(&state, &just_below);
    assert_eq!(frames[0], framed(0x03, &just_below));
    let at = vec![b'y'; 4096];
    let frames = send_replay(&state, &at);
    assert_eq!(frames[0][4], 0x13);
    assert_eq!(gunzip(&frames[0][5..]), at);
    state.record_output(b"x", 1, String::from("t"));
}

#[test]
fn resume_with_a_served_offset_gets_the_delta() {
    let mut state = fresh(1024);
    state.record_output(b"first chunk ", 2000, String::from("t"));
    state.record_output(b"second chunk", 2001, String::from("t"));
    assert_eq!(select_for_resume(&state, &12.0f64.to_be_bytes()), b"second chunk");
    assert_eq!(select_for_resume(&state, &12.9f64.to_be_bytes()), b"second chunk");
    assert_eq!(select_for_resume(&state, &1.0f64.to_be_bytes()), b"irst chunk second chunk");
    assert_eq!(select_for_resume(&state, &24.0f64.to_be_bytes()), b"");
    assert_eq!(select_for_resume(&state, &1e30f64.to_be_bytes()), b"");
    let frames = handle_resume(&state, &12.0f64.to_be_bytes());
    assert_eq!(
        frames,
        vec![framed(0x03, b"second chunk"), sync_frame(24), session_state_frame(true)]
    );
    let frames = handle_resume(&state, &24.0f64.to_be_bytes());
    assert_eq!(frames, vec![sync_frame(24), session_state_frame(true)]);
}

#[test]
fn resume_without_a_usable_offset_gets_everything() {
    let mut state = fresh(1024);
    state.record_output(b"all of it", 2000, String::from("t"));
    let full: &[u8] = b"all of it";
    assert_eq!(select_for_resume(&state, &0.0f64.to_be_bytes()), full);
    assert_eq!(select_for_resume(&state, &(-0.0f64).to_be_bytes()), full);
    assert_eq!(select_for_resume(&state, &(-5.0f64).to_be_bytes()), full);
    assert_eq!(select_for_resume(&state, &f64::NAN.to_be_bytes()), full);
    assert_eq!(select_for_resume(&state, &f64::INFINITY.to_be_bytes()), full);
    assert_eq!(select_for_resume(&state, &f64::NEG_INFINITY.to_be_bytes()), full);
    assert_eq!(select_for_resume(&state, &[]), full);
    assert_eq!(select_for_resume(&state, &[0x40, 0x28, 0, 0, 0, 0, 0]), full);
    assert_eq!(select_for_resume(&state, &0.25f64.to_be_bytes()), full);
}

#[test]
fn resume_with_an_overwritten_offset_gets_a_full_replay() {
    let mut state = fresh(16);
    state.record_output(b"line one\n", 2000, String::from("t"));
    state.record_output(b"line two\nline three", 2001, String::from("t"));
    assert_eq!(state.output_buffer.read_raw(), b"e two\nline three");
    assert_eq!(state.output_buffer.total_written(), 28);
    assert_eq!(select_for_resume(&state, &3.0f64.to_be_bytes()), b"line three");
    assert_eq!(select_for_resume(&state, &11.0f64.to_be_bytes()), b"line three");
    assert_eq!(select_for_resume(&state, &12.0f64.to_be_bytes()), b"e two\nline three");
    assert_eq!(select_for_resume(&state, &18.0f64.to_be_bytes()), b"line three");
    assert_eq!(select_for_resume(&state, &0.0f64.to_be_bytes()), b"line three");
    let frames = handle_resume(&state, &3.0f64.to_be_bytes());
    assert_eq!(
        frames,
        vec![framed(0x03, b"line three"), sync_frame(28), session_state_frame(true)]
    );
}

#[test]
fn exit_notice_follows_the_exit_code() {
    let mut state = fresh(16);
    assert_eq!(exit_notice(&state), None);
    state.child_exited(42, 3000);
    assert_eq!(exit_notice(&state), Some(exit_frame(42)));
}

#[test]
fn scrollback_of_a_chatty_child_is_compressed() {
    let mut state = fresh(65536);
    let mut written = Vec::new();
    for _ in 0..20 {
        let chunk = b"y\r\n".repeat(100);
        state.record_output(&chunk, 2000, String::from("t"));
        written.extend_from_slice(&chunk);
    }
    let frames = send_full_replay(&state);
    assert_eq!(frames[0][4], 0x13);
    let decompressed = gunzip(&frames[0][5..]);
    assert!(!decompressed.is_empty());
    assert_eq!(decompressed, written);
    assert_eq!(frames[1], sync_frame(6000));
    assert_eq!(frames[2], session_state_frame(true));
}
