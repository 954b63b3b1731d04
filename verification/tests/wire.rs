use flowtap::wire::{decode_event, EVENT_SIZE};

#[test]
fn short_records_are_rejected() {
    assert!(decode_event(&[0u8; 100]).is_none());
    assert!(decode_event(&vec![0u8; EVENT_SIZE - 1]).is_none());
}

#[test]
fn fields_are_read_little_endian() {
    let mut bytes = vec![0u8; EVENT_SIZE + 3];
    bytes[0..8].copy_from_slice(&123_456_789u64.to_le_bytes());
    bytes[8..12].copy_from_slice(&2311u32.to_le_bytes());
    bytes[12..16].copy_from_slice(&2312u32.to_le_bytes());
    bytes[16..20].copy_from_slice(&5u32.to_le_bytes());
    bytes[20..22].copy_from_slice(&13u16.to_le_bytes());
    bytes[22..24].copy_from_slice(&443u16.to_le_bytes());
    bytes[24..28].copy_from_slice(&[93, 184, 216, 34]);
    bytes[28] = 2;
    bytes[29] = 1;
    bytes[32..36].copy_from_slice(b"curl");
    bytes[48..52].copy_from_slice(b"/bin");
    bytes[304..309].copy_from_slice(b"hello");
    bytes[EVENT_SIZE - 1] = 0xee;
    let event = decode_event(&bytes).unwrap();
    assert_eq!(event.timestamp_ns, 123_456_789);
    assert_eq!(event.pid, 2311);
    assert_eq!(event.tid, 2312);
    assert_eq!(event.payload_len, 5);
    assert_eq!(event.detail_len, 13);
    assert_eq!(event.port, 443);
    assert_eq!(event.addr_v4.to_le_bytes(), [93, 184, 216, 34]);
    assert_eq!((event.event_type, event.flags), (2, 1));
    assert_eq!(&event.comm[..5], b"curl\0");
    assert_eq!(&event.detail[..4], b"/bin");
    assert_eq!(&event.payload[..5], b"hello");
    assert_eq!(event.payload[4095], 0xee);
}
