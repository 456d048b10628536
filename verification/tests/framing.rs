use std::io::BufRead;

use vesktop_voice_overlay::framing::{
    admit_connection, dispatch_line, line_payload, read_bounded_line, safe_parse_context, BoundedLine,
    LineAction, LineFramer,
};
use vesktop_voice_overlay::lifecycle::OverlayCommand;
use vesktop_voice_overlay::protocol::{
    ClientMessage, ParticipantSelf, Snapshot, MAX_PAYLOAD_SIZE, PROTOCOL_VERSION,
};

/// Reads one line from a buffered reader, chunk by chunk.
fn read_line<R: BufRead>(reader: &mut R) -> std::io::Result<BoundedLine> {
    let mut framer = LineFramer::new();
    loop {
        let available = reader.fill_buf()?;
        let outcome = read_bounded_line(&mut framer, available);
        reader.consume(outcome.consumed);
        if let Some(line) = outcome.line {
            return Ok(line);
        }
    }
}

#[test]
fn safe_parse_context_never_includes_payload_content() {
    let long = format!("{{\"userId\":\"{}\"}}", "A".repeat(500));
    let context = safe_parse_context(&long);
    assert!(context.contains("len=513"), "context was: {context}");
    assert!(!context.contains("userId"));
    assert!(!context.contains('A'));
}

#[test]
fn safe_parse_context_does_not_log_control_characters() {
    let context = safe_parse_context("bad\r\njson\x00here");
    assert!(!context.contains('\r'));
    assert!(!context.contains('\n'));
    assert!(!context.contains('\0'));
    assert_eq!(context, "len=14");
}

#[test]
fn safe_parse_context_counts_bytes_not_characters() {
    assert_eq!(safe_parse_context("é"), "len=2");
    assert_eq!(safe_parse_context(""), "len=0");
    assert_eq!(safe_parse_context(&"x".repeat(1234567)), "len=1234567");
}

#[test]
fn bounded_reader_accepts_payload_at_limit() {
    let input = format!("{}\nnext\n", "a".repeat(MAX_PAYLOAD_SIZE));
    let mut reader = std::io::BufReader::with_capacity(17, input.as_bytes());

    match read_line(&mut reader).expect("line reads") {
        BoundedLine::Line(line) => assert_eq!(line.len(), MAX_PAYLOAD_SIZE),
        _ => panic!("payload at the limit must be accepted"),
    }
    match read_line(&mut reader).expect("next line reads") {
        BoundedLine::Line(line) => assert_eq!(line, "next"),
        _ => panic!("reader must remain synchronized after a valid line"),
    }
}

#[test]
fn bounded_reader_discards_oversized_line_and_resynchronizes() {
    let input = format!("{}\nvalid\n", "a".repeat(MAX_PAYLOAD_SIZE + 10_000));
    let mut reader = std::io::BufReader::with_capacity(31, input.as_bytes());

    assert!(matches!(
        read_line(&mut reader).expect("oversized line reads"),
        BoundedLine::TooLarge
    ));
    match read_line(&mut reader).expect("next line reads") {
        BoundedLine::Line(line) => assert_eq!(line, "valid"),
        _ => panic!("reader must resynchronize at the next newline"),
    }
}

#[test]
fn bounded_reader_rejects_invalid_utf8_without_losing_next_line() {
    let bytes = [b"bad\xff\n".as_slice(), b"valid\n".as_slice()].concat();
    let mut reader = std::io::BufReader::new(bytes.as_slice());

    assert!(matches!(
        read_line(&mut reader).expect("invalid line reads"),
        BoundedLine::InvalidUtf8
    ));
    assert!(matches!(
        read_line(&mut reader).expect("valid line reads"),
        BoundedLine::Line(line) if line == "valid"
    ));
}

#[test]
fn bounded_reader_reports_end_of_input() {
    let mut reader = std::io::BufReader::new(b"tail".as_slice());
    assert!(matches!(read_line(&mut reader).unwrap(), BoundedLine::Line(l) if l == "tail"));
    assert!(matches!(read_line(&mut reader).unwrap(), BoundedLine::Eof));
}

#[test]
fn bounded_reader_one_over_the_limit_is_too_large() {
    let input = format!("{}\nok\n", "b".repeat(MAX_PAYLOAD_SIZE + 1));
    let mut reader = std::io::BufReader::with_capacity(4096, input.as_bytes());
    assert!(matches!(read_line(&mut reader).unwrap(), BoundedLine::TooLarge));
    assert!(matches!(read_line(&mut reader).unwrap(), BoundedLine::Line(l) if l == "ok"));
}

#[test]
fn empty_line_yields_empty_payload() {
    let mut reader = std::io::BufReader::new(b"\nx\n".as_slice());
    assert!(matches!(read_line(&mut reader).unwrap(), BoundedLine::Line(l) if l.is_empty()));
    assert!(matches!(read_line(&mut reader).unwrap(), BoundedLine::Line(l) if l == "x"));
}

fn snapshot(version: u8) -> Snapshot {
    Snapshot {
        version,
        timestamp: 1,
        self_: ParticipantSelf {
            user_id: "1".into(),
            username: "Me".into(),
            avatar_url: String::new(),
            mute: false,
            deaf: false,
            speaking: true,
        },
        participants: Vec::new(),
    }
}

#[test]
fn dispatch_prefers_snapshot_and_skips_blank_lines() {
    assert!(matches!(dispatch_line("", None, None), LineAction::Skip));
    assert!(matches!(
        dispatch_line("{}", Some(snapshot(PROTOCOL_VERSION)), Some(ClientMessage::Clear)),
        LineAction::Command(OverlayCommand::UpdateSnapshot(_))
    ));
    assert!(matches!(
        dispatch_line("{}", Some(snapshot(2)), Some(ClientMessage::Clear)),
        LineAction::Command(OverlayCommand::Clear)
    ));
    match dispatch_line("garbage", None, None) {
        LineAction::Reject(context) => assert_eq!(context, "len=7"),
        other => panic!("expected a rejection, got {other:?}"),
    }
}

#[test]
fn payload_drops_surrounding_whitespace() {
    assert_eq!(line_payload("  {\"type\":\"clear\"}\r\n"), "{\"type\":\"clear\"}");
    assert_eq!(line_payload(" \t "), "");
    assert_eq!(line_payload("\u{a0}x\u{3000}"), "x");
}

#[test]
fn only_one_connection_is_admitted() {
    assert_eq!(admit_connection(0), Some(1));
    assert_eq!(admit_connection(1), None);
    assert_eq!(admit_connection(7), None);
}

fn describe(line: &BoundedLine) -> String {
    match line {
        BoundedLine::Eof => "eof".to_string(),
        BoundedLine::Line(text) => format!("line:{text}"),
        BoundedLine::TooLarge => "too-large".to_string(),
        BoundedLine::InvalidUtf8 => "invalid".to_string(),
    }
}

fn read_all(input: &[u8], capacity: usize) -> Vec<String> {
    let mut reader = std::io::BufReader::with_capacity(capacity, input);
    let mut out = Vec::new();
    loop {
        let line = read_line(&mut reader).expect("reads");
        let done = matches!(line, BoundedLine::Eof);
        out.push(describe(&line));
        if done {
            return out;
        }
    }
}

#[test]
fn chunk_size_does_not_change_the_lines_read() {
    let mut input = b"{\"a\":1}\n".to_vec();
    input.extend(std::iter::repeat(b'z').take(MAX_PAYLOAD_SIZE + 5));
    input.extend(b"\nbad\xff\ntail".iter());
    let whole = read_all(&input, input.len() + 1);
    assert_eq!(whole, ["line:{\"a\":1}", "too-large", "invalid", "line:tail", "eof"]);
    for capacity in [1, 2, 7, 4096] {
        assert_eq!(read_all(&input, capacity), whole);
    }
}

#[test]
fn line_payload_strips_unicode_white_space_only() {
    assert_eq!(line_payload("\u{3000}\t {\"type\":\"clear\"}\r\u{85}\u{2029}"), "{\"type\":\"clear\"}");
    assert_eq!(line_payload(" \u{a0}\u{200b} "), "\u{200b}");
    assert_eq!(line_payload("\u{2000}\u{202f}\u{205f}\u{1680}"), "");
    assert_eq!(line_payload("a b"), "a b");
}
