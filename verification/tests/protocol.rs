use pty_host::protocol::{
    BUFFER_SIZE, GZIP_THRESHOLD, IDLE_TIMEOUT_MS, JSON_WRITE_INTERVAL_MS,
    METRICS_INTERVAL_MS, RESUME_TIMEOUT_MS, WS_MSG_BUFFER_REPLAY, WS_MSG_BUFFER_REPLAY_GZ,
    WS_MSG_DATA, WS_MSG_EXIT, WS_MSG_NOTIFICATION, WS_MSG_RESIZE, WS_MSG_RESUME,
    WS_MSG_SESSION_METRICS, WS_MSG_SESSION_STATE, WS_MSG_SYNC, WS_MSG_TITLE,
};

#[test]
fn ws_msg_constants_match() {
    assert_eq!(WS_MSG_DATA, 0x00);
    assert_eq!(WS_MSG_RESIZE, 0x01);
    assert_eq!(WS_MSG_EXIT, 0x02);
    assert_eq!(WS_MSG_BUFFER_REPLAY, 0x03);
    assert_eq!(WS_MSG_TITLE, 0x04);
    assert_eq!(WS_MSG_NOTIFICATION, 0x05);
    assert_eq!(WS_MSG_RESUME, 0x10);
    assert_eq!(WS_MSG_SYNC, 0x11);
    assert_eq!(WS_MSG_SESSION_STATE, 0x12);
    assert_eq!(WS_MSG_BUFFER_REPLAY_GZ, 0x13);
    assert_eq!(WS_MSG_SESSION_METRICS, 0x14);
}

#[test]
fn limits_have_their_documented_values() {
    assert_eq!(BUFFER_SIZE, 10 * 1024 * 1024);
    assert_eq!(GZIP_THRESHOLD, 4096);
    assert_eq!(IDLE_TIMEOUT_MS, 60_000);
    assert_eq!(JSON_WRITE_INTERVAL_MS, 5_000);
    assert_eq!(METRICS_INTERVAL_MS, 3_000);
    assert_eq!(RESUME_TIMEOUT_MS, 100);
}
