use flowtap::common::{Config, Event, EventType};
use flowtap::probe::{
    begin_event, exec_filename_offset, ipv4_destination, plan_tls_capture, plan_tls_probe,
    positive_openssl_length, should_trace, TlsCapture,
};

#[test]
fn openssl_lengths() {
    assert_eq!(positive_openssl_length(5), Some(5));
    assert_eq!(positive_openssl_length(0), None);
    assert_eq!(positive_openssl_length(0xffff_ffff), None);
    assert_eq!(positive_openssl_length(0xdead_0000_0000_0010), Some(16));
    assert_eq!(positive_openssl_length(0x7fff_ffff), Some(0x7fff_ffff));
}

fn config(max: u32, pid: u32, comm: Option<&[u8]>) -> Config {
    let mut c = Config::empty();
    c.max_payload_bytes = max;
    c.target_pid = pid;
    if let Some(name) = comm {
        c.filter_comm[..name.len()].copy_from_slice(name);
        c.filter_comm_enabled = 1;
    }
    c
}

#[test]
fn capture_is_clamped_and_flagged() {
    let c = config(128, 0, None);
    assert_eq!(plan_tls_capture(100, Some(c)), TlsCapture::Emit { length: 100, truncated: false });
    assert_eq!(plan_tls_capture(500, Some(c)), TlsCapture::Emit { length: 128, truncated: true });
    let big = config(100_000, 0, None);
    assert_eq!(plan_tls_capture(10_000, Some(big)), TlsCapture::Emit { length: 4096, truncated: true });
    assert_eq!(plan_tls_capture(0, Some(c)), TlsCapture::Skip);
    assert_eq!(plan_tls_capture(5, None), TlsCapture::NoConfig);
    assert_eq!(plan_tls_probe(true, true, 0xffff_fff0, Some(c)), TlsCapture::Skip);
    assert_eq!(plan_tls_probe(false, true, 10, Some(c)), TlsCapture::Skip);
    assert_eq!(plan_tls_probe(true, true, 10, Some(c)), TlsCapture::Emit { length: 10, truncated: false });
}

#[test]
fn filters() {
    let mut curl = [0u8; 16];
    curl[..4].copy_from_slice(b"curl");
    assert!(!should_trace(None, 1, Some(curl)));
    assert!(should_trace(Some(config(128, 0, None)), 1, None));
    assert!(should_trace(Some(config(128, 7, None)), 7, None));
    assert!(!should_trace(Some(config(128, 7, None)), 8, None));
    assert!(should_trace(Some(config(128, 7, Some(b"curl"))), 7, Some(curl)));
    assert!(!should_trace(Some(config(128, 8, Some(b"curl"))), 7, Some(curl)));
    assert!(!should_trace(Some(config(128, 0, Some(b"wget"))), 7, Some(curl)));
    assert!(!should_trace(Some(config(128, 0, Some(b"curl"))), 7, None));
}

#[test]
fn raw_hook_arguments() {
    assert_eq!(exec_filename_offset(0x0010_0040), Some(0x40));
    assert_eq!(exec_filename_offset(4), None);
    assert_eq!(exec_filename_offset(4097), None);
    assert_eq!(ipv4_destination(2, 0x5000, 7), Some((7, 80)));
    assert_eq!(ipv4_destination(10, 0x5000, 7), None);
}

#[test]
fn begin_event_resets_the_header() {
    let mut event = Event {
        timestamp_ns: 9,
        pid: 9,
        tid: 9,
        payload_len: 9,
        detail_len: 9,
        port: 9,
        addr_v4: 9,
        event_type: 9,
        flags: 9,
        _padding: [9; 2],
        comm: [9; 16],
        detail: [7; 256],
        payload: [7; 4096],
    };
    begin_event(&mut event, EventType::TlsRead, 100, 5, 6, None);
    assert_eq!(event.timestamp_ns, 100);
    assert_eq!((event.pid, event.tid), (5, 6));
    assert_eq!((event.payload_len, event.detail_len, event.port, event.addr_v4), (0, 0, 0, 0));
    assert_eq!((event.event_type, event.flags), (4, 0));
    assert_eq!(event.comm, [0; 16]);
    assert_eq!(event.detail[0], 7);
}
