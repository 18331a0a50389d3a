use rust_analyzer_mcp::framing::{encode_frame, scan_frame, FrameError, FrameReader, FrameStatus};

fn frame_text(body: &str) -> Vec<u8> {
    encode_frame(body.as_bytes())
}

#[test]
fn encode_writes_exact_header() {
    let f = frame_text("{\"a\":1}");
    assert_eq!(f, b"Content-Length: 7\r\n\r\n{\"a\":1}".to_vec());
}

#[test]
fn encode_declares_utf8_byte_length() {
    let body = "{\"s\":\"h\u{e9}llo\"}";
    let f = encode_frame(body.as_bytes());
    let header = format!("Content-Length: {}\r\n\r\n", body.len());
    assert_eq!(body.len(), 14);
    assert_eq!(body.chars().count(), 13);
    assert_eq!(&f[..header.len()], header.as_bytes());
    assert_eq!(&f[header.len()..], body.as_bytes());
}

#[test]
fn encode_empty_and_large_lengths() {
    assert_eq!(encode_frame(b""), b"Content-Length: 0\r\n\r\n".to_vec());
    let big = vec![b'x'; 12345];
    let f = encode_frame(&big);
    assert!(f.starts_with(b"Content-Length: 12345\r\n\r\n"));
    assert_eq!(f.len(), "Content-Length: 12345\r\n\r\n".len() + 12345);
}

#[test]
fn round_trip_through_reader() {
    let bodies = ["{}", "{\"jsonrpc\":\"2.0\",\"id\":1,\"result\":null}", "[1,2,3]"];
    let mut r = FrameReader::new();
    for b in bodies.iter() {
        r.feed(&frame_text(b));
    }
    for b in bodies.iter() {
        let got = r.next_frame().unwrap().unwrap();
        assert_eq!(got, b.as_bytes().to_vec());
    }
    assert!(r.next_frame().unwrap().is_none());
    assert!(r.finish().is_ok());
}

#[test]
fn payload_waits_for_declared_length() {
    let f = frame_text("{\"key\":\"value\"}");
    let mut r = FrameReader::new();
    for (i, byte) in f.iter().enumerate() {
        if i + 1 < f.len() {
            r.feed(&[*byte]);
            assert!(r.next_frame().unwrap().is_none());
        } else {
            r.feed(&[*byte]);
            assert_eq!(r.next_frame().unwrap().unwrap(), b"{\"key\":\"value\"}".to_vec());
        }
    }
}

#[test]
fn other_header_lines_are_skipped() {
    let bytes = b"Content-Type: application/vscode-jsonrpc; charset=utf-8\r\nContent-Length: 2\r\n\r\n{}";
    match scan_frame(bytes) {
        FrameStatus::Complete { body_start, body_len } => {
            assert_eq!(body_len, 2);
            assert_eq!(&bytes[body_start..body_start + body_len], b"{}");
        }
        _ => panic!("expected a frame"),
    }
    let after = b"Content-Length: 2\r\nContent-Type: x\r\n\r\n[]";
    match scan_frame(after) {
        FrameStatus::Complete { body_start, body_len } => {
            assert_eq!(&after[body_start..body_start + body_len], b"[]");
        }
        _ => panic!("expected a frame"),
    }
}

#[test]
fn blanks_around_length_are_accepted() {
    let bytes = b"Content-Length:\t 3 \r\n\r\nabc";
    match scan_frame(bytes) {
        FrameStatus::Complete { body_start, body_len } => {
            assert_eq!(&bytes[body_start..body_start + body_len], b"abc");
        }
        _ => panic!("expected a frame"),
    }
}

#[test]
fn unparsable_length_is_malformed() {
    let mut r = FrameReader::new();
    r.feed(b"Content-Length: 12a\r\n\r\n{}");
    assert_eq!(r.next_frame(), Err(FrameError::Malformed));
    assert!(matches!(scan_frame(b"Content-Length: \r\n\r\n"), FrameStatus::Malformed));
    assert!(matches!(
        scan_frame(b"Content-Length: 99999999999999999999999\r\n\r\n"),
        FrameStatus::Malformed
    ));
}

#[test]
fn stream_ending_inside_frame_is_truncated() {
    let mut r = FrameReader::new();
    r.feed(b"Content-Length: 10\r\n\r\n{\"a\"");
    assert!(r.next_frame().unwrap().is_none());
    assert_eq!(r.finish(), Err(FrameError::Truncated));
}

#[test]
fn header_without_length_waits() {
    assert!(matches!(scan_frame(b"\r\n\r\n{}"), FrameStatus::Incomplete));
    assert!(matches!(scan_frame(b"Content-Length: 5"), FrameStatus::Incomplete));
}
