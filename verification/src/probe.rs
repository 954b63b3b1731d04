//! The decisions the kernel probes take before they emit an event: which
//! processes are traced, how much of a TLS buffer is captured, and which raw
//! hook arguments are usable.
use vstd::prelude::*;
use crate::common::{Config, Event, EventType, event_type_code, MAX_PAYLOAD_BYTES};

verus! {

/// The byte count an OpenSSL call reports, when positive. OpenSSL passes a
/// signed 32-bit `int` in a 64-bit register whose upper half is arbitrary.
pub open spec fn openssl_length(raw_length: u64) -> Option<u64> {
    let low = raw_length % 0x1_0000_0000;
    if 0 < low && low < 0x8000_0000 {
        Some(low)
    } else {
        None
    }
}

/// Rejects negative and zero lengths and keeps the low 31 bits of the rest.
pub fn positive_openssl_length(raw_length: u64) -> (r: Option<u64>)
    ensures
        r == openssl_length(raw_length),
{
    if raw_length & (1u64 << 31) != 0 {
        assert(raw_length & (1u64 << 31) != 0 ==> !(0 < raw_length % 0x1_0000_0000
            < 0x8000_0000)) by (bit_vector);
        return None;
    }
    let length = raw_length & 0x7fff_ffffu64;
    assert(raw_length & (1u64 << 31) == 0 ==> raw_length & 0x7fff_ffffu64 == raw_length
        % 0x1_0000_0000) by (bit_vector);
    assert(raw_length & (1u64 << 31) == 0 ==> raw_length % 0x1_0000_0000 < 0x8000_0000)
        by (bit_vector);
    if length == 0 {
        None
    } else {
        Some(length)
    }
}

/// Whether an event of the process `tgid`, whose task name is `comm` (when it
/// could be read), passes the filters of `config`. Without a configuration
/// nothing is traced.
pub open spec fn traced(config: Option<Config>, tgid: u32, comm: Option<[u8; 16]>) -> bool {
    match config {
        None => false,
        Some(c) => {
            &&& (c.target_pid == 0 || c.target_pid == tgid)
            &&& (c.filter_comm_enabled == 0 || (comm matches Some(name) && name@ == c.filter_comm@))
        },
    }
}

/// The PID and command-name filter of the probes.
#[verifier::loop_isolation(false)]
pub fn should_trace(config: Option<Config>, tgid: u32, comm: Option<[u8; 16]>) -> (r: bool)
    ensures
        r == traced(config, tgid, comm),
{
    let config = match config {
        Some(c) => c,
        None => return false,
    };
    if config.target_pid != 0 && config.target_pid != tgid {
        return false;
    }
    if config.filter_comm_enabled == 0 {
        return true;
    }
    let comm = match comm {
        Some(c) => c,
        None => return false,
    };
    let mut index: usize = 0;
    while index < 16
        invariant
            index <= 16,
            forall|j: int| 0 <= j < index ==> comm[j] == config.filter_comm[j],
        decreases 16 - index,
    {
        if comm[index] != config.filter_comm[index] {
            assert(comm@[index as int] != config.filter_comm@[index as int]);
            return false;
        }
        index = index + 1;
    }
    assert(comm@ =~= config.filter_comm@);
    true
}

/// Fills the header of `event` for a new event of `kind`: time, IDs, zeroed
/// lengths, address and flags, and the task name (zeros when unreadable).
/// The detail and payload buffers keep their old bytes.
pub fn begin_event(
    event: &mut Event,
    kind: EventType,
    timestamp_ns: u64,
    tgid: u32,
    tid: u32,
    comm: Option<[u8; 16]>,
)
    ensures
        final(event).timestamp_ns == timestamp_ns,
        final(event).pid == tgid,
        final(event).tid == tid,
        final(event).payload_len == 0,
        final(event).detail_len == 0,
        final(event).port == 0,
        final(event).addr_v4 == 0,
        final(event).event_type == event_type_code(kind),
        final(event).flags == 0,
        final(event)._padding@ == seq![0u8, 0u8],
        final(event).comm@ == (match comm {
            Some(c) => c@,
            None => Seq::new(16, |_i: int| 0u8),
        }),
        final(event).detail == old(event).detail,
        final(event).payload == old(event).payload,
{
    event.timestamp_ns = timestamp_ns;
    event.pid = tgid;
    event.tid = tid;
    event.payload_len = 0;
    event.detail_len = 0;
    event.port = 0;
    event.addr_v4 = 0;
    event.event_type = kind.code();
    event.flags = 0;
    event._padding = [0u8; 2];
    assert(event._padding@ =~= seq![0u8, 0u8]);
    event.comm = match comm {
        Some(c) => c,
        None => [0u8; 16],
    };
    assert(comm is None ==> event.comm@ =~= Seq::new(16, |_i: int| 0u8));
}

/// What a TLS probe does with a buffer.
#[derive(Clone, Copy, Debug, PartialEq, Eq, Structural)]
pub enum TlsCapture {
    /// The configuration map could not be read: the probe reports an error.
    NoConfig,
    /// Nothing to send.
    Skip,
    /// Copy `length` bytes; `truncated` when the buffer held more.
    Emit { length: u32, truncated: bool },
}

/// The capture for a buffer of `supplied` bytes: at most the configured limit
/// and at most `MAX_PAYLOAD_BYTES`.
pub open spec fn capture_plan(supplied: u64, config: Option<Config>) -> TlsCapture {
    match config {
        None => TlsCapture::NoConfig,
        Some(c) => {
            let limit = if (c.max_payload_bytes as u64) < 4096 {
                c.max_payload_bytes as u64
            } else {
                4096
            };
            let length = if supplied < limit {
                supplied
            } else {
                limit
            };
            if length == 0 {
                TlsCapture::Skip
            } else {
                TlsCapture::Emit { length: length as u32, truncated: supplied > length }
            }
        },
    }
}

/// Clamps the captured length of a TLS buffer and tells whether it was cut.
pub fn plan_tls_capture(supplied: u64, config: Option<Config>) -> (r: TlsCapture)
    ensures
        r == capture_plan(supplied, config),
{
    let mut capture_length = supplied;
    let max_configured = match config {
        Some(c) => c.max_payload_bytes as u64,
        None => return TlsCapture::NoConfig,
    };
    if capture_length > max_configured {
        capture_length = max_configured;
    }
    if capture_length > MAX_PAYLOAD_BYTES as u64 {
        capture_length = MAX_PAYLOAD_BYTES as u64;
    }
    if capture_length == 0 {
        return TlsCapture::Skip;
    }
    TlsCapture::Emit { length: capture_length as u32, truncated: supplied > capture_length }
}

/// The decision of an `SSL_write` entry or `SSL_read` return probe: it emits
/// only for a traced process, a present buffer and a positive OpenSSL length.
pub open spec fn tls_probe_plan(
    is_traced: bool,
    has_buffer: bool,
    raw_length: u64,
    config: Option<Config>,
) -> TlsCapture {
    if !is_traced || !has_buffer {
        TlsCapture::Skip
    } else {
        match openssl_length(raw_length) {
            None => TlsCapture::Skip,
            Some(length) => capture_plan(length, config),
        }
    }
}

pub fn plan_tls_probe(is_traced: bool, has_buffer: bool, raw_length: u64, config: Option<Config>) -> (r:
    TlsCapture)
    ensures
        r == tls_probe_plan(is_traced, has_buffer, raw_length, config),
{
    if !is_traced || !has_buffer {
        return TlsCapture::Skip;
    }
    match positive_openssl_length(raw_length) {
        None => TlsCapture::Skip,
        Some(length) => plan_tls_capture(length, config),
    }
}

/// Offset of the filename in a `sched_process_exec` record, from the low 16
/// bits of its `__data_loc` field, when it lies in `8..=4096`.
pub open spec fn filename_offset(data_loc: u32) -> Option<usize> {
    let offset = data_loc % 0x1_0000;
    if 8 <= offset <= 4096 {
        Some(offset as usize)
    } else {
        None
    }
}

pub fn exec_filename_offset(data_loc: u32) -> (r: Option<usize>)
    ensures
        r == filename_offset(data_loc),
{
    let offset = data_loc & 0xffff;
    assert(data_loc & 0xffff == data_loc % 0x1_0000) by (bit_vector);
    if offset < 8 || offset > 4096 {
        None
    } else {
        Some(offset as usize)
    }
}

/// `value` with its two bytes exchanged.
pub open spec fn swap16(value: u16) -> u16 {
    ((value % 256) * 256 + value / 256) as u16
}

/// The IPv4 destination of a `tcp_v4_connect` call, from the raw fields of its
/// `sockaddr_in`: only `AF_INET` (2) is accepted; the port arrives in network
/// order and is returned in host order of the little-endian targets.
pub open spec fn connect_destination(family: u16, raw_port: u16, addr: u32) -> Option<(u32, u16)> {
    if family == 2 {
        Some((addr, swap16(raw_port)))
    } else {
        None
    }
}

pub fn ipv4_destination(family: u16, raw_port: u16, addr: u32) -> (r: Option<(u32, u16)>)
    ensures
        r == connect_destination(family, raw_port, addr),
{
    if family != 2 {
        return None;
    }
    let port = (raw_port % 256) * 256 + raw_port / 256;
    Some((addr, port))
}


/// A capture never exceeds the buffer, the configured limit or
/// `MAX_PAYLOAD_BYTES`, and it is marked truncated exactly when the buffer was
/// longer than what was captured.
pub proof fn lemma_capture_is_bounded(supplied: u64, config: Option<Config>)
    ensures
        capture_plan(supplied, config) matches TlsCapture::Emit { length, truncated } ==> {
            &&& 0 < length
            &&& length <= supplied
            &&& length <= config->Some_0.max_payload_bytes
            &&& length <= MAX_PAYLOAD_BYTES
            &&& truncated <==> supplied > length
        },
        capture_plan(supplied, config) is Skip ==> supplied == 0 || config->Some_0.max_payload_bytes
            == 0,
        capture_plan(supplied, config) is NoConfig <==> config is None,
{
}

} // verus!
