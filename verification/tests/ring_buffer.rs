use pty_host::ring_buffer::{sanitize_start, OutputBuffer};

#[test]
fn ring_buffer_write_and_read() {
    let mut buf = OutputBuffer::new(64);
    buf.write(b"hello world");
    assert_eq!(buf.read(), b"hello world");
    assert_eq!(buf.size(), 11);
    assert_eq!(buf.total_written(), 11);
}

#[test]
fn ring_buffer_wraps_around() {
    let mut buf = OutputBuffer::new(16);
    buf.write(b"AAAAAAAAAA");
    buf.write(b"BBBBBBBBBB");
    let data = buf.read_raw();
    assert_eq!(data.len(), 16);
    assert_eq!(buf.total_written(), 20);
    assert!(buf.filled());
    assert_eq!(data.len(), 16);
    assert_eq!(data, b"AAAAAABBBBBBBBBB");
    assert_eq!(buf.write_pos(), 4);
}

#[test]
fn ring_buffer_read_from_delta() {
    let mut buf = OutputBuffer::new(1024);
    buf.write(b"first chunk ");
    let offset_after_first = buf.total_written();
    buf.write(b"second chunk");

    let delta = buf.read_from(offset_after_first).unwrap();
    assert_eq!(delta, b"second chunk");
}

#[test]
fn ring_buffer_read_from_fully_caught_up() {
    let mut buf = OutputBuffer::new(1024);
    buf.write(b"data");
    let delta = buf.read_from(buf.total_written()).unwrap();
    assert!(delta.is_empty());
}

#[test]
fn ring_buffer_read_from_overwritten_returns_none() {
    let mut buf = OutputBuffer::new(32);
    buf.write(b"first write that fills buffer!!");
    let early_offset = 5;
    buf.write(b"second write that overwrites everything!!!");
    assert!(buf.read_from(early_offset).is_none());
}

#[test]
fn ring_buffer_capacity_enforcement() {
    let mut buf = OutputBuffer::new(64);
    let big = vec![b'X'; 128];
    buf.write(&big);
    assert_eq!(buf.size(), 64);
    assert_eq!(buf.total_written(), 128);
    let data = buf.read_raw();
    assert_eq!(data.len(), 64);
    assert!(data.iter().all(|&b| b == b'X'));
}

#[test]
fn ring_buffer_empty_read() {
    let buf = OutputBuffer::new(64);
    assert!(buf.read().is_empty());
    assert_eq!(buf.size(), 0);
    assert_eq!(buf.total_written(), 0);
}

#[test]
fn ring_buffer_exact_capacity_write() {
    let mut buf = OutputBuffer::new(8);
    buf.write(b"12345678");
    assert_eq!(buf.read_raw(), b"12345678");
    assert_eq!(buf.size(), 8);
}

#[test]
fn sanitize_start_skips_to_first_newline() {
    let data = b"partial\nreal line\n".to_vec();
    let result = sanitize_start(data);
    assert_eq!(result, b"real line\n");
}

#[test]
fn sanitize_start_preserves_leading_newline() {
    let data = b"\nfull line\n".to_vec();
    let result = sanitize_start(data);
    assert_eq!(result, b"\nfull line\n");
}

#[test]
fn sanitize_start_no_newline() {
    let data = b"no newline at all".to_vec();
    let result = sanitize_start(data);
    assert_eq!(result, b"no newline at all");
}

#[test]
fn exact_capacity_write_wraps_to_start() {
    let mut buf = OutputBuffer::new(8);
    buf.write(b"12345678");
    assert_eq!(buf.write_pos(), 0);
    assert!(buf.filled());
    assert_eq!(buf.total_written(), 8);
}

#[test]
fn oversized_write_keeps_the_tail() {
    let mut buf = OutputBuffer::new(8);
    buf.write(b"abc");
    buf.write(b"0123456789ABCDEF");
    assert_eq!(buf.read_raw(), b"89ABCDEF");
    assert_eq!(buf.write_pos(), 0);
    assert!(buf.filled());
    assert_eq!(buf.total_written(), 19);
}

#[test]
fn position_stays_inside_the_store() {
    let mut buf = OutputBuffer::new(5);
    let chunks: [&[u8]; 6] = [b"a", b"bc", b"def", b"", b"ghijk", b"lmnopqrs"];
    let mut written: u64 = 0;
    for chunk in chunks.iter() {
        buf.write(chunk);
        written += chunk.len() as u64;
        assert!(buf.write_pos() < 5);
        let expected = if buf.filled() { 5 } else { buf.write_pos() };
        assert_eq!(buf.size(), expected);
        assert_eq!(buf.read_raw().len(), expected);
        assert!(buf.total_written() >= buf.size() as u64);
        assert_eq!(buf.total_written(), written);
    }
    assert_eq!(buf.read_raw(), b"opqrs");
}

#[test]
fn wrapping_write_keeps_stream_order() {
    let mut buf = OutputBuffer::new(8);
    buf.write(b"abcdef");
    assert!(!buf.filled());
    buf.write(b"ghij");
    assert!(buf.filled());
    assert_eq!(buf.write_pos(), 2);
    assert_eq!(buf.read_raw(), b"cdefghij");
}

#[test]
fn read_from_every_offset() {
    let mut buf = OutputBuffer::new(8);
    buf.write(b"abcdef");
    buf.write(b"ghij");
    let all = buf.read_raw();
    let total = buf.total_written();
    assert_eq!(total, 10);
    let start = total - buf.size() as u64;
    assert_eq!(start, 2);
    for offset in start..=total {
        let delta = buf.read_from(offset).unwrap();
        assert_eq!(delta.len() as u64, total - offset);
        assert_eq!(delta, all[(offset - start) as usize..].to_vec());
    }
    assert!(buf.read_from(0).is_none());
    assert!(buf.read_from(1).is_none());
    assert_eq!(buf.read_from(total + 5).unwrap(), Vec::<u8>::new());
    assert_eq!(buf.read_from(u64::MAX).unwrap(), Vec::<u8>::new());
}

#[test]
fn read_from_zero_on_fresh_buffer() {
    let buf = OutputBuffer::new(8);
    assert_eq!(buf.read_from(0).unwrap(), Vec::<u8>::new());
    let mut buf = OutputBuffer::new(8);
    buf.write(b"abc");
    assert_eq!(buf.read_from(0).unwrap(), b"abc");
}

#[test]
fn replay_read_aligns_to_a_line_once_wrapped() {
    let mut buf = OutputBuffer::new(8);
    buf.write(b"ab\ncd");
    assert_eq!(buf.read(), b"ab\ncd");
    buf.write(b"e\nfgh");
    assert_eq!(buf.read_raw(), b"\ncde\nfgh");
    assert_eq!(buf.read(), b"\ncde\nfgh");
    let mut buf = OutputBuffer::new(8);
    buf.write(b"0123456789\nxy");
    assert_eq!(buf.read_raw(), b"56789\nxy");
    assert_eq!(buf.read(), b"xy");
    let mut buf = OutputBuffer::new(4);
    buf.write(b"abcdefgh");
    assert_eq!(buf.read(), b"efgh");
    let mut buf = OutputBuffer::new(4);
    buf.write(b"abcd\nxyz");
    assert_eq!(buf.read(), b"\nxyz");
}
