use base64::Engine;
use termul::osc::{
    field_text, message_event, parse_payload, read_message, Message, OscEvent, OscScanner, MAX_OSC,
};
use termul::text::chars_of;

fn enc(s: &str) -> String {
    base64::engine::general_purpose::STANDARD.encode(s)
}

#[test]
fn parses_command_start_and_end() {
    let mut sc = OscScanner::default();
    let mut out = Vec::new();
    let start = format!("\x1b]1337;TermulCmd={};{}\x07", enc("ls -la"), enc("/tmp/x"));
    sc.scan(start.as_bytes(), &mut out);
    sc.scan(b"\x1b]1337;TermulEnd=0\x07", &mut out);
    assert_eq!(
        out,
        vec![
            OscEvent::CommandStart {
                cmd: "ls -la".into(),
                cwd: "/tmp/x".into()
            },
            OscEvent::CommandEnd { exit: 0 },
        ]
    );
}

#[test]
fn survives_split_across_chunks() {
    let mut sc = OscScanner::default();
    let mut out = Vec::new();
    let full = format!("\x1b]1337;TermulCmd={};{}\x07", enc("echo hi"), enc("/h"));
    let (a, b) = full.as_bytes().split_at(10);
    sc.scan(a, &mut out);
    assert!(out.is_empty());
    sc.scan(b, &mut out);
    assert_eq!(
        out,
        vec![OscEvent::CommandStart {
            cmd: "echo hi".into(),
            cwd: "/h".into()
        }]
    );
}

#[test]
fn ignores_unrelated_osc() {
    let mut sc = OscScanner::default();
    let mut out = Vec::new();
    sc.scan(b"\x1b]0;window title\x07some text", &mut out);
    assert!(out.is_empty());
}

#[test]
fn reports_the_input_line_with_its_directory() {
    let payload = format!("1337;TermulBuf=3;{};{}", enc("h\u{e9}y"), enc("/tmp"));
    assert_eq!(
        parse_payload(payload.as_bytes()),
        Some(OscEvent::BufferUpdate {
            cursor: 3,
            buffer: "h\u{e9}y".into(),
            cwd: "/tmp".into()
        })
    );
    // Without a directory it is no message.
    let payload = format!("1337;TermulBuf=3;{}", enc("abc"));
    assert_eq!(parse_payload(payload.as_bytes()), None);
}

#[test]
fn every_split_of_a_stream_finds_the_same() {
    let stream = format!(
        "a\x1b]0;t\x07\x1b]1337;TermulEnd=-7\x07\x1b]1337;TermulCmd={};{}\x07z\x1b]1337;TermulEnd=x\x07",
        enc("make"),
        enc("/w")
    );
    let bytes = stream.as_bytes();
    let mut whole = Vec::new();
    OscScanner::default().scan(bytes, &mut whole);
    assert_eq!(
        whole,
        vec![
            OscEvent::CommandEnd { exit: -7 },
            OscEvent::CommandStart {
                cmd: "make".into(),
                cwd: "/w".into()
            },
        ]
    );
    for cut in 0..=bytes.len() {
        let mut sc = OscScanner::default();
        let mut out = Vec::new();
        sc.scan(&bytes[..cut], &mut out);
        sc.scan(&bytes[cut..], &mut out);
        assert_eq!(out, whole, "cut at {cut}");
    }
}

#[test]
fn an_escape_cancels_a_payload() {
    let mut sc = OscScanner::default();
    let mut out = Vec::new();
    sc.scan(b"\x1b]1337;TermulEnd=1\x1b\\\x07", &mut out);
    assert!(out.is_empty());
    sc.scan(b"\x1b]1337;Term\x1b]1337;TermulEnd=2\x07", &mut out);
    assert_eq!(out, vec![OscEvent::CommandEnd { exit: 2 }]);
}

#[test]
fn long_payloads_are_cut() {
    let mut sc = OscScanner::default();
    let mut out = Vec::new();
    let mut bytes = b"\x1b]1337;TermulEnd=".to_vec();
    bytes.extend(std::iter::repeat(b'0').take(MAX_OSC));
    bytes.extend_from_slice(b"9\x07");
    sc.scan(&bytes, &mut out);
    // The digits behind the limit are dropped, the last one among them.
    assert_eq!(out, vec![OscEvent::CommandEnd { exit: 0 }]);
}

#[test]
fn malformed_fields_are_no_messages() {
    assert_eq!(parse_payload(b"1337;TermulEnd="), None);
    assert_eq!(parse_payload(b"1337;TermulEnd=2147483648"), None);
    assert_eq!(
        parse_payload(b"1337;TermulEnd=-2147483648"),
        Some(OscEvent::CommandEnd { exit: i32::MIN })
    );
    assert_eq!(
        parse_payload(b"1337;TermulEnd=+5"),
        Some(OscEvent::CommandEnd { exit: 5 })
    );
    assert_eq!(parse_payload(b"1337;TermulCmd=!!!!;YQ=="), None);
    assert_eq!(parse_payload(b"1337;TermulCmd=YQ=="), None);
    // Not UTF-8 behind base64, and not UTF-8 at all.
    assert_eq!(parse_payload(b"1337;TermulCmd=/w==;YQ=="), None);
    assert_eq!(parse_payload(b"1337;TermulEnd=1\xff"), None);
}

#[test]
fn messages_are_read_apart_from_their_encoding() {
    assert_eq!(
        read_message(&chars_of("1337;TermulBuf=12;ab;cd;ef")),
        Some(Message::Buffer {
            cursor: 12,
            buffer: vec!['a', 'b'],
            cwd: vec!['c', 'd', ';', 'e', 'f'],
        })
    );
    assert_eq!(read_message(&chars_of("1337;TermulBuf=-1;ab;cd")), None);
    assert_eq!(read_message(&chars_of("1337;termulend=1")), None);
    assert_eq!(field_text(Some(vec![0xc3, 0xa9])), Some("\u{e9}".to_string()));
    assert_eq!(field_text(Some(vec![0xc3])), None);
    assert_eq!(field_text(None), None);
    assert_eq!(
        message_event(
            Message::Start {
                cmd: vec![],
                cwd: vec![]
            },
            Some("ls".into()),
            None
        ),
        None
    );
}
