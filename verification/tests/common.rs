use flowtap::common::{Config, EventType};

#[test]
fn event_types_round_trip() {
    for kind in [
        EventType::Exec,
        EventType::Connect,
        EventType::TlsWrite,
        EventType::TlsRead,
    ] {
        assert_eq!(EventType::from_u8(kind.code()), Some(kind));
    }
    assert_eq!(EventType::from_u8(0), None);
    assert_eq!(EventType::from_u8(5), None);
    assert_eq!(EventType::Exec.as_str(), "EXEC");
    assert_eq!(EventType::Connect.as_str(), "CONNECT");
    assert_eq!(EventType::TlsWrite.as_str(), "TLS_WRITE");
    assert_eq!(EventType::TlsRead.as_str(), "TLS_READ");
}

#[test]
fn empty_config_has_no_filter() {
    let config = Config::empty();
    assert_eq!(config.max_payload_bytes, 128);
    assert_eq!(config.target_pid, 0);
    assert_eq!(config.filter_comm, [0; 16]);
    assert_eq!(config.filter_comm_enabled, 0);
}
