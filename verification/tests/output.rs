use flowtap::common::{Event, EventType};
use flowtap::output::{
    cmdline_text, escape_table_field, nul_terminated, table_header, table_line, utf8_lossy,
    Processor, Record,
};

#[test]
fn table_output_escapes_control_characters() {
    assert_eq!(
        escape_table_field("a\r\nb\t\0\\\u{1b}\u{7f}"),
        "a\\r\\nb\\t\\0\\\\\\u{1b}\\u{7f}"
    );
}

#[test]
fn table_output_contains_no_literal_control_characters() {
    let escaped = escape_table_field("\u{1b}]0;title\u{7}text");
    assert!(escaped.chars().all(|character| !character.is_control()));
}

#[test]
fn escape_keeps_printable_text_and_escapes_c1_controls() {
    assert_eq!(escape_table_field("héllo wörld"), "héllo wörld");
    assert_eq!(escape_table_field("\u{85}\u{9f}\u{a0}"), "\\u{85}\\u{9f}\u{a0}");
    assert_eq!(escape_table_field("\u{1}"), "\\u{1}");
}

#[test]
fn nul_terminated_stops_at_first_nul() {
    assert_eq!(nul_terminated(b"curl\0\0xyz"), "curl");
    assert_eq!(nul_terminated(b"abc"), "abc");
    assert_eq!(nul_terminated(b"\0abc"), "");
}

#[test]
fn utf8_lossy_respects_length_and_nul() {
    assert_eq!(utf8_lossy(b"/usr/bin/curl\0junk", 100), "/usr/bin/curl");
    assert_eq!(utf8_lossy(b"/usr/bin/curl", 4), "/usr");
    assert_eq!(utf8_lossy(b"ab\xffc", 4), "ab\u{fffd}c");
}

#[test]
fn cmdline_joins_non_empty_arguments() {
    assert_eq!(cmdline_text(b"curl\0http://example.com/\0"), "curl http://example.com/");
    assert_eq!(cmdline_text(b"\0a\0\0b"), "a b");
    assert_eq!(cmdline_text(b""), "");
}

fn event(kind: u8, pid: u32) -> Event {
    let mut comm = [0u8; 16];
    comm[..4].copy_from_slice(b"curl");
    Event {
        timestamp_ns: 0,
        pid,
        tid: pid + 1,
        payload_len: 0,
        detail_len: 0,
        port: 0,
        addr_v4: 0,
        event_type: kind,
        flags: 0,
        _padding: [0; 2],
        comm,
        detail: [0; 256],
        payload: [0; 4096],
    }
}

#[test]
fn exec_then_connect_is_correlated() {
    let mut processor = Processor::new(false, false);
    let mut exec = event(1, 2311);
    exec.detail[..13].copy_from_slice(b"/usr/bin/curl");
    exec.detail_len = 13;
    let first = processor
        .record(&exec, Some("curl http://example.com/".to_string()))
        .unwrap();
    assert_eq!(first.detail, "curl http://example.com/");
    assert_eq!(first.correlated_exec.as_deref(), Some("curl http://example.com/"));

    let mut connect = event(2, 2311);
    connect.comm = [0; 16];
    connect.addr_v4 = u32::from_le_bytes([93, 184, 216, 34]);
    connect.port = 80;
    let second = processor.record(&connect, None).unwrap();
    assert_eq!(second.kind, EventType::Connect);
    assert_eq!(second.detail, "93.184.216.34:80");
    assert_eq!(second.comm, "curl");
    assert_eq!(second.correlated_exec.as_deref(), Some("curl http://example.com/"));
    assert!(!second.truncated);
}

#[test]
fn exec_without_cmdline_uses_filename() {
    let mut processor = Processor::new(true, false);
    let mut exec = event(1, 7);
    exec.detail[..8].copy_from_slice(b"/bin/ls\0");
    exec.detail_len = 8;
    let record = processor.record(&exec, Some(String::new())).unwrap();
    assert_eq!(record.detail, "/bin/ls");
    assert!(processor.json());
}

#[test]
fn unknown_event_type_is_ignored() {
    let mut processor = Processor::new(false, false);
    assert!(processor.record(&event(0, 1), None).is_none());
    assert!(processor.record(&event(9, 1), None).is_none());
}

#[test]
fn tls_payload_is_redacted_and_marked_truncated() {
    let mut processor = Processor::new(false, true);
    let mut tls = event(3, 5);
    let text = b"GET / HTTP/1.1\r\nCookie: secret\r\n";
    tls.payload[..text.len()].copy_from_slice(text);
    tls.payload_len = text.len() as u32;
    tls.flags = 1;
    let record = processor.record(&tls, None).unwrap();
    assert_eq!(record.detail, "GET / HTTP/1.1\r\nCookie: [REDACTED]\r\n…");
    assert!(record.truncated);
    assert_eq!(record.correlated_exec, None);
}

#[test]
fn tls_payload_length_is_clamped() {
    let mut processor = Processor::new(false, false);
    let mut tls = event(4, 5);
    tls.payload = [b'a'; 4096];
    tls.payload_len = 10_000;
    let record = processor.record(&tls, None).unwrap();
    assert_eq!(record.detail.len(), 4096);
}

#[test]
fn table_rows_are_padded_and_escaped() {
    assert_eq!(
        table_header(),
        format!("{:<32} {:<7} {:<15} {:<11} DETAIL", "TIME", "PID", "COMM", "EVENT")
    );
    let record = Record {
        kind: EventType::TlsWrite,
        pid: 3211,
        tid: 3211,
        comm: "curl".to_string(),
        detail: "GET /\r\n".to_string(),
        correlated_exec: None,
        truncated: false,
    };
    assert_eq!(
        table_line("2026-07-09T01:23:10.123+09:00", &record),
        format!(
            "{:<32} {:<7} {:<15} {:<11} {}",
            "2026-07-09T01:23:10.123+09:00", 3211, "curl", "TLS_WRITE", "GET /\\r\\n"
        )
    );
}

#[test]
fn table_rows_hold_no_control_characters() {
    let record = Record {
        kind: EventType::TlsRead,
        pid: 1,
        tid: 1,
        comm: "evil\u{1b}[2J".to_string(),
        detail: "\u{1b}]0;title\u{7}\r\nnext".to_string(),
        correlated_exec: None,
        truncated: false,
    };
    let line = table_line("2026-01-01T00:00:00.000+00:00", &record);
    assert!(line.chars().all(|character| !character.is_control()));
    assert!(line.ends_with("\\u{1b}]0;title\\u{7}\\r\\nnext"));
}

#[test]
fn header_only_in_table_mode() {
    assert!(Processor::new(true, false).header().is_none());
    assert_eq!(Processor::new(false, false).header(), Some(table_header()));
}

#[test]
fn different_fields_escape_differently() {
    let fields = ["\\n", "\n", "\\u{1b}", "\u{1b}", "\\\\", "\\", "a\tb", "a\\tb"];
    for (i, a) in fields.iter().enumerate() {
        for (j, b) in fields.iter().enumerate() {
            assert_eq!(i == j, escape_table_field(a) == escape_table_field(b));
        }
    }
}

#[test]
fn decoded_fields_hold_no_nul_even_for_invalid_bytes() {
    assert_eq!(nul_terminated(&[0xff, b'a', 0, b'b']), "\u{fffd}a");
    let overlong_nul = utf8_lossy(&[0xc0, 0x80, b'x'], 8);
    assert!(!overlong_nul.contains('\0'));
    assert!(overlong_nul.ends_with('x'));
}

#[test]
fn cmdline_keeps_valid_utf8_arguments() {
    assert_eq!(cmdline_text("caf\u{e9}\0--name=\u{3bb}\0".as_bytes()), "caf\u{e9} --name=\u{3bb}");
}
