use toastmcp::framing::{frame_message, read_message, Framing, ReadError, ReadOutcome};

fn header_frame(payload: &str) -> Vec<u8> {
    let mut out = format!("Content-Length: {}\r\n\r\n", payload.len()).into_bytes();
    out.extend_from_slice(payload.as_bytes());
    out
}

#[test]
fn header_delimited_consumes_exactly_declared_bytes() {
    // The payload embeds newlines; the reader must not stop at them.
    let payload = "{\n \"jsonrpc\": \"2.0\",\n \"method\": \"ping\"\n}";
    let mut input = header_frame(payload);
    let body_start = input.len() - payload.len();
    input.extend_from_slice(b"TRAILING GARBAGE");
    match read_message(&input, 0) {
        ReadOutcome::Message {
            payload: got,
            framing,
            next,
        } => {
            assert_eq!(got, payload);
            assert!(matches!(framing, Framing::HeaderDelimited));
            assert_eq!(next, body_start + payload.len());
        }
        _ => panic!("expected a message"),
    }
}

#[test]
fn json_line_is_a_complete_message() {
    let line = "{\"jsonrpc\":\"2.0\",\"id\":1,\"method\":\"ping\"}";
    let mut input = line.as_bytes().to_vec();
    input.push(b'\n');
    let line_end = input.len();
    input.extend_from_slice(b"Content-Length: 99\r\n");
    match read_message(&input, 0) {
        ReadOutcome::Message {
            payload,
            framing,
            next,
        } => {
            assert_eq!(payload, line);
            assert!(matches!(framing, Framing::LineDelimited));
            assert_eq!(next, line_end);
        }
        _ => panic!("expected a message"),
    }
}

#[test]
fn json_line_trims_carriage_return() {
    let input = b"{\"jsonrpc\":\"2.0\",\"method\":\"x\"}\r\n".to_vec();
    match read_message(&input, 0) {
        ReadOutcome::Message { payload, .. } => {
            assert_eq!(payload, "{\"jsonrpc\":\"2.0\",\"method\":\"x\"}");
        }
        _ => panic!("expected a message"),
    }
}

#[test]
fn empty_input_is_end_of_stream() {
    let input: Vec<u8> = Vec::new();
    assert!(matches!(read_message(&input, 0), ReadOutcome::EndOfStream));
}

#[test]
fn cursor_at_end_is_end_of_stream() {
    let input = header_frame("{}");
    let n = input.len();
    assert!(matches!(read_message(&input, n), ReadOutcome::EndOfStream));
}

#[test]
fn blank_line_without_content_length_fails() {
    let input = b"X-Other: 1\r\n\r\n".to_vec();
    assert!(matches!(
        read_message(&input, 0),
        ReadOutcome::Fail(ReadError::MissingContentLength)
    ));
}

#[test]
fn bad_content_length_value_fails() {
    let input = b"Content-Length: abc\r\n\r\n".to_vec();
    assert!(matches!(
        read_message(&input, 0),
        ReadOutcome::Fail(ReadError::InvalidContentLength)
    ));
}

#[test]
fn huge_content_length_value_fails() {
    let input = b"Content-Length: 99999999999999999999999999\r\n\r\n".to_vec();
    assert!(matches!(
        read_message(&input, 0),
        ReadOutcome::Fail(ReadError::InvalidContentLength)
    ));
}

#[test]
fn short_payload_fails_as_truncated() {
    let input = b"Content-Length: 10\r\n\r\nabc".to_vec();
    assert!(matches!(
        read_message(&input, 0),
        ReadOutcome::Fail(ReadError::TruncatedPayload)
    ));
}

#[test]
fn stream_end_inside_headers_fails() {
    let input = b"Content-Length: 3\r\n".to_vec();
    assert!(matches!(
        read_message(&input, 0),
        ReadOutcome::Fail(ReadError::TruncatedHeaders)
    ));
}

#[test]
fn invalid_utf8_payload_fails() {
    let mut input = b"Content-Length: 1\r\n\r\n".to_vec();
    input.push(0xFF);
    assert!(matches!(
        read_message(&input, 0),
        ReadOutcome::Fail(ReadError::InvalidUtf8)
    ));
}

#[test]
fn header_name_is_case_insensitive() {
    let input = b"content-LENGTH: 2\r\n\r\nhi".to_vec();
    match read_message(&input, 0) {
        ReadOutcome::Message { payload, .. } => assert_eq!(payload, "hi"),
        _ => panic!("expected a message"),
    }
}

#[test]
fn last_content_length_header_wins() {
    let input = b"Content-Length: 1\r\nContent-Length: 2\r\n\r\nhi".to_vec();
    match read_message(&input, 0) {
        ReadOutcome::Message { payload, .. } => assert_eq!(payload, "hi"),
        _ => panic!("expected a message"),
    }
}

#[test]
fn two_messages_in_sequence() {
    let mut input = header_frame("{\"a\":1}");
    let first_end = input.len();
    input.extend_from_slice(&header_frame("{\"b\":2}"));
    let next = match read_message(&input, 0) {
        ReadOutcome::Message { payload, next, .. } => {
            assert_eq!(payload, "{\"a\":1}");
            assert_eq!(next, first_end);
            next
        }
        _ => panic!("expected a message"),
    };
    match read_message(&input, next) {
        ReadOutcome::Message { payload, .. } => assert_eq!(payload, "{\"b\":2}"),
        _ => panic!("expected a second message"),
    }
}

#[test]
fn frame_header_delimited() {
    let out = frame_message("abc", Framing::HeaderDelimited);
    assert_eq!(out, b"Content-Length: 3\r\n\r\nabc".to_vec());
}

#[test]
fn frame_line_delimited() {
    let out = frame_message("{\"x\":1}", Framing::LineDelimited);
    assert_eq!(out, b"{\"x\":1}\n".to_vec());
}

#[test]
fn frame_counts_bytes_not_characters() {
    let out = frame_message("é", Framing::HeaderDelimited);
    assert_eq!(out, b"Content-Length: 2\r\n\r\n\xc3\xa9".to_vec());
}

#[test]
fn framed_message_reads_back() {
    let out = frame_message("{\"y\":true}", Framing::HeaderDelimited);
    match read_message(&out, 0) {
        ReadOutcome::Message {
            payload,
            framing,
            next,
        } => {
            assert_eq!(payload, "{\"y\":true}");
            assert!(matches!(framing, Framing::HeaderDelimited));
            assert_eq!(next, out.len());
        }
        _ => panic!("expected a message"),
    }
}
