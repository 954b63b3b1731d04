//! Types shared between the kernel probes and the user-space reader.
use vstd::prelude::*;

verus! {

/// Linux `TASK_COMM_LEN`: the task command name including its NUL terminator.
pub const COMM_LEN: usize = 16;

/// Bytes reserved for the filename of an EXEC event.
pub const EXEC_DETAIL_LEN: usize = 256;

/// Largest TLS payload a probe copies into one event.
pub const MAX_PAYLOAD_BYTES: usize = 4096;

/// Bit of `Event::flags` set when a TLS payload was cut at the capture limit.
pub const FLAG_TRUNCATED: u8 = 1;

/// Kind of an observed event; its wire value is `1..=4`.
#[derive(Clone, Copy, Debug, PartialEq, Eq, Structural)]
pub enum EventType {
    Exec,
    Connect,
    TlsWrite,
    TlsRead,
}

/// The byte that stands for `kind` in `Event::event_type`.
pub open spec fn event_type_code(kind: EventType) -> u8 {
    match kind {
        EventType::Exec => 1,
        EventType::Connect => 2,
        EventType::TlsWrite => 3,
        EventType::TlsRead => 4,
    }
}

/// The fixed name under which `kind` is printed.
pub open spec fn event_type_name(kind: EventType) -> Seq<char> {
    match kind {
        EventType::Exec => seq!['E', 'X', 'E', 'C'],
        EventType::Connect => seq!['C', 'O', 'N', 'N', 'E', 'C', 'T'],
        EventType::TlsWrite => seq!['T', 'L', 'S', '_', 'W', 'R', 'I', 'T', 'E'],
        EventType::TlsRead => seq!['T', 'L', 'S', '_', 'R', 'E', 'A', 'D'],
    }
}

impl EventType {
    /// The wire byte of this kind.
    pub fn code(self) -> (r: u8)
        ensures
            r == event_type_code(self),
    {
        match self {
            EventType::Exec => 1,
            EventType::Connect => 2,
            EventType::TlsWrite => 3,
            EventType::TlsRead => 4,
        }
    }

    /// Decodes a wire byte; unknown values (including 0) give `None`.
    pub fn from_u8(value: u8) -> (r: Option<EventType>)
        ensures
            match r {
                Some(kind) => event_type_code(kind) == value,
                None => !(1 <= value <= 4),
            },
    {
        match value {
            1 => Some(EventType::Exec),
            2 => Some(EventType::Connect),
            3 => Some(EventType::TlsWrite),
            4 => Some(EventType::TlsRead),
            _ => None,
        }
    }

    /// The printed name of this kind.
    pub fn as_str(self) -> (r: &'static str)
        ensures
            r@ == event_type_name(self),
    {
        proof {
            reveal_strlit("EXEC");
            reveal_strlit("CONNECT");
            reveal_strlit("TLS_WRITE");
            reveal_strlit("TLS_READ");
        }
        match self {
            EventType::Exec => "EXEC",
            EventType::Connect => "CONNECT",
            EventType::TlsWrite => "TLS_WRITE",
            EventType::TlsRead => "TLS_READ",
        }
    }
}

/// Every kind survives the trip through its wire byte.
pub proof fn lemma_event_type_code_roundtrip(kind: EventType)
    ensures
        1 <= event_type_code(kind) <= 4,
        forall|other: EventType| event_type_code(other) == event_type_code(kind) ==> other == kind,
{
}

/// Distinct kinds are printed under distinct names.
pub proof fn lemma_event_type_names_distinct(a: EventType, b: EventType)
    requires
        a != b,
    ensures
        event_type_name(a) != event_type_name(b),
{
    assert(event_type_name(a).len() != event_type_name(b).len());
}

/// One record as written by a probe into the ring buffer.
#[derive(Clone, Copy)]
pub struct Event {
    /// `bpf_ktime_get_ns` at the probe, in nanoseconds.
    pub timestamp_ns: u64,
    /// Thread-group ID: this is the process ID seen from user space.
    pub pid: u32,
    /// Kernel PID: this is the thread ID seen from user space.
    pub tid: u32,
    pub payload_len: u32,
    pub detail_len: u16,
    pub port: u16,
    pub addr_v4: u32,
    pub event_type: u8,
    pub flags: u8,
    pub _padding: [u8; 2],
    pub comm: [u8; 16],
    pub detail: [u8; 256],
    pub payload: [u8; 4096],
}

/// Settings handed from the command line to the probes.
#[derive(Clone, Copy)]
pub struct Config {
    pub max_payload_bytes: u32,
    /// 0 disables the PID filter.
    pub target_pid: u32,
    pub filter_comm: [u8; 16],
    /// Non-zero enables the command-name filter.
    pub filter_comm_enabled: u8,
    pub _padding: [u8; 3],
}

/// The settings in effect when nothing is filtered.
pub open spec fn empty_config_spec(c: Config) -> bool {
    &&& c.max_payload_bytes == 128
    &&& c.target_pid == 0
    &&& forall|i: int| 0 <= i < 16 ==> #[trigger] c.filter_comm[i] == 0
    &&& c.filter_comm_enabled == 0
    &&& forall|i: int| 0 <= i < 3 ==> #[trigger] c._padding[i] == 0
}

impl Config {
    /// No filter, and a payload limit of 128 bytes.
    pub fn empty() -> (r: Config)
        ensures
            empty_config_spec(r),
    {
        Config {
            max_payload_bytes: 128,
            target_pid: 0,
            filter_comm: [0u8; 16],
            filter_comm_enabled: 0,
            _padding: [0u8; 3],
        }
    }
}

} // verus!
