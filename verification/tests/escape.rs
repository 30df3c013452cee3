use pty_host::escape::{extract_osc9_notifications, parse_osc_title, strip_terminal_queries};

#[test]
fn strip_dsr_sequence() {
    let input = b"before\x1b[6nafter";
    let result = strip_terminal_queries(input);
    assert_eq!(result, b"beforeafter");
}

#[test]
fn strip_da1_sequence() {
    let input = b"before\x1b[cafter";
    let result = strip_terminal_queries(input);
    assert_eq!(result, b"beforeafter");
}

#[test]
fn strip_da2_sequence() {
    let input = b"before\x1b[>cafter";
    let result = strip_terminal_queries(input);
    assert_eq!(result, b"beforeafter");
}

#[test]
fn strip_da3_sequence() {
    let input = b"before\x1b[=cafter";
    let result = strip_terminal_queries(input);
    assert_eq!(result, b"beforeafter");
}

#[test]
fn strip_dsr_with_question_mark() {
    let input = b"before\x1b[?6nafter";
    let result = strip_terminal_queries(input);
    assert_eq!(result, b"beforeafter");
}

#[test]
fn strip_da1_zero_param() {
    let input = b"before\x1b[0cafter";
    let result = strip_terminal_queries(input);
    assert_eq!(result, b"beforeafter");
}

#[test]
fn strip_preserves_non_query_csi() {
    let input = b"before\x1b[1mafter";
    let result = strip_terminal_queries(input);
    assert_eq!(result, b"before\x1b[1mafter");
}

#[test]
fn strip_preserves_cursor_movement() {
    let input = b"\x1b[H\x1b[2J";
    let result = strip_terminal_queries(input);
    assert_eq!(result, b"\x1b[H\x1b[2J");
}

#[test]
fn strip_multiple_queries() {
    let input = b"start\x1b[6n\x1b[cmiddle\x1b[>c\x1b[=cend";
    let result = strip_terminal_queries(input);
    assert_eq!(result, b"startmiddleend");
}

#[test]
fn strip_empty_input() {
    let result = strip_terminal_queries(b"");
    assert!(result.is_empty());
}

#[test]
fn strip_no_queries_returns_same() {
    let input = b"plain text with no escapes";
    let result = strip_terminal_queries(input);
    assert_eq!(result, input.to_vec());
}

#[test]
fn strip_incomplete_escape_at_end() {
    let input = b"text\x1b";
    let result = strip_terminal_queries(input);
    assert_eq!(result, b"text\x1b");
}

#[test]
fn strip_incomplete_csi_at_end() {
    let input = b"text\x1b[";
    let result = strip_terminal_queries(input);
    assert_eq!(result, b"text\x1b[");
}

#[test]
fn osc_title_osc0_bel() {
    let input = b"\x1b]0;my-title\x07rest of data";
    let title = parse_osc_title(input);
    assert_eq!(title.unwrap(), "my-title");
}

#[test]
fn osc_title_osc2_st() {
    let input = b"\x1b]2;another title\x1b\\rest";
    let title = parse_osc_title(input);
    assert_eq!(title.unwrap(), "another title");
}

#[test]
fn osc_title_embedded_in_data() {
    let input = b"some output\x1b]0;new-title\x07more output";
    let title = parse_osc_title(input);
    assert_eq!(title.unwrap(), "new-title");
}

#[test]
fn osc_title_not_found() {
    let input = b"plain text with no OSC";
    assert!(parse_osc_title(input).is_none());
}

#[test]
fn osc_title_non_title_osc() {
    let input = b"\x1b]7;file:///tmp\x07";
    assert!(parse_osc_title(input).is_none());
}

#[test]
fn osc9_notification_bel() {
    let input = b"before\x1b]9;hello notification\x07after";
    let (cleaned, notifs) = extract_osc9_notifications(input);
    assert_eq!(notifs.len(), 1);
    assert_eq!(notifs[0], "hello notification");
    assert_eq!(cleaned, b"beforeafter");
}

#[test]
fn osc9_notification_st() {
    let input = b"before\x1b]9;notify me\x1b\\after";
    let (cleaned, notifs) = extract_osc9_notifications(input);
    assert_eq!(notifs.len(), 1);
    assert_eq!(notifs[0], "notify me");
    assert_eq!(cleaned, b"beforeafter");
}

#[test]
fn osc9_multiple_notifications() {
    let input = b"\x1b]9;first\x07middle\x1b]9;second\x07end";
    let (cleaned, notifs) = extract_osc9_notifications(input);
    assert_eq!(notifs.len(), 2);
    assert_eq!(notifs[0], "first");
    assert_eq!(notifs[1], "second");
    assert_eq!(cleaned, b"middleend");
}

#[test]
fn osc9_no_notifications() {
    let input = b"plain text";
    let (cleaned, notifs) = extract_osc9_notifications(input);
    assert!(notifs.is_empty());
    assert_eq!(cleaned, b"plain text");
}

#[test]
fn osc9_partial_sequence_preserved() {
    let input = b"data\x1b]9;unterminated";
    let (cleaned, notifs) = extract_osc9_notifications(input);
    assert!(notifs.is_empty());
    assert_eq!(cleaned, b"data\x1b]9;unterminated");
}

#[test]
fn strip_keeps_every_stream_without_escape() {
    let mut input: Vec<u8> = Vec::new();
    for b in 0..=255u8 {
        if b != 0x1b {
            input.push(b);
        }
    }
    input.extend_from_slice(b"[6n[c[>c 6n ?6n");
    assert_eq!(strip_terminal_queries(&input), input);
}

#[test]
fn strip_keeps_near_misses() {
    let kept: [&[u8]; 9] = [
        b"\x1b[5n",
        b"\x1b[66n",
        b"\x1b[?5n",
        b"\x1b[1c",
        b"\x1b[>0c",
        b"\x1b[6m",
        b"\x1b6n",
        b"\x1b[6",
        b"\x1b[?6",
    ];
    for input in kept.iter() {
        assert_eq!(strip_terminal_queries(input), input.to_vec());
    }
}

#[test]
fn strip_query_at_both_ends() {
    assert_eq!(strip_terminal_queries(b"\x1b[6n"), b"");
    assert_eq!(strip_terminal_queries(b"\x1b[c\x1b[6nx\x1b[0c"), b"x");
    assert_eq!(strip_terminal_queries(b"\x1b\x1b[6n"), b"\x1b");
    assert_eq!(strip_terminal_queries(b"visible\x1b[6nhidden\x1b[cmore"), b"visiblehiddenmore");
}

#[test]
fn osc_title_takes_the_first_complete_command() {
    assert_eq!(parse_osc_title(b"\x1b]0;one\x07\x1b]2;two\x07").unwrap(), "one");
    assert_eq!(parse_osc_title(b"\x1b]7;cwd\x07\x1b]2;two\x1b\\").unwrap(), "two");
    assert_eq!(parse_osc_title(b"\x1b]0;\x07").unwrap(), "");
    assert!(parse_osc_title(b"\x1b]0;never ends").is_none());
    assert!(parse_osc_title(b"\x1b]0").is_none());
    assert!(parse_osc_title(b"").is_none());
    assert_eq!(parse_osc_title(b"\x1b]0;a\x1bb\x1b\\").unwrap(), "a\x1bb");
}

#[test]
fn osc_title_is_decoded_leniently() {
    assert_eq!(parse_osc_title(b"\x1b]0;caf\xc3\xa9\x07").unwrap(), "caf\u{e9}");
    assert_eq!(parse_osc_title(b"\x1b]2;bad\xffbyte\x07").unwrap(), "bad\u{fffd}byte");
}

#[test]
fn osc9_message_is_decoded_leniently() {
    let (cleaned, notifs) = extract_osc9_notifications(b"a\x1b]9;\xfe!\x07b");
    assert_eq!(cleaned, b"ab");
    assert_eq!(notifs, vec![String::from("\u{fffd}!")]);
}

#[test]
fn osc9_leaves_other_commands_alone() {
    let input = b"\x1b]0;title\x07x\x1b]9;note\x1b\\y\x1b]90;no\x07";
    let (cleaned, notifs) = extract_osc9_notifications(input);
    assert_eq!(cleaned, b"\x1b]0;title\x07xy\x1b]90;no\x07");
    assert_eq!(notifs, vec![String::from("note")]);
    let (cleaned, notifs) = extract_osc9_notifications(b"\x1b]9;\x07");
    assert_eq!(cleaned, b"");
    assert_eq!(notifs, vec![String::new()]);
}
