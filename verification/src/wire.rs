//! Reading an `Event` back from a ring-buffer record.
//!
//! A record is the C layout of `Event` on the little-endian targets flowtap
//! supports: 8-byte timestamp, then `pid`, `tid`, `payload_len` (4 bytes each),
//! `detail_len` and `port` (2 bytes each), `addr_v4` (4), `event_type`,
//! `flags`, 2 padding bytes, then the 16-byte `comm`, the 256-byte `detail` and
//! the 4096-byte `payload`: 4400 bytes in all.
use vstd::prelude::*;
use crate::common::Event;

verus! {

/// Size of one `Event` record in bytes.
pub const EVENT_SIZE: usize = 4400;

pub open spec fn le_u16(b: Seq<u8>, at: int) -> u16 {
    (b[at] as nat + b[at + 1] as nat * 256) as u16
}

pub open spec fn le_u32(b: Seq<u8>, at: int) -> u32 {
    (b[at] as nat + b[at + 1] as nat * 256 + b[at + 2] as nat * 65536 + b[at + 3] as nat
        * 16777216) as u32
}

pub open spec fn le_u64(b: Seq<u8>, at: int) -> u64 {
    (le_u32(b, at) as nat + le_u32(b, at + 4) as nat * 4294967296) as u64
}

/// `e` is the event stored at the start of `b`.
pub open spec fn decodes_to(b: Seq<u8>, e: Event) -> bool {
    &&& e.timestamp_ns == le_u64(b, 0)
    &&& e.pid == le_u32(b, 8)
    &&& e.tid == le_u32(b, 12)
    &&& e.payload_len == le_u32(b, 16)
    &&& e.detail_len == le_u16(b, 20)
    &&& e.port == le_u16(b, 22)
    &&& e.addr_v4 == le_u32(b, 24)
    &&& e.event_type == b[28]
    &&& e.flags == b[29]
    &&& e._padding@ == b.subrange(30, 32)
    &&& e.comm@ == b.subrange(32, 48)
    &&& e.detail@ == b.subrange(48, 304)
    &&& e.payload@ == b.subrange(304, 4400)
}

fn read_u16(b: &[u8], at: usize) -> (r: u16)
    requires
        at + 2 <= b.len(),
    ensures
        r == le_u16(b@, at as int),
{
    b[at] as u16 + b[at + 1] as u16 * 256
}

fn read_u32(b: &[u8], at: usize) -> (r: u32)
    requires
        at + 4 <= b.len(),
    ensures
        r == le_u32(b@, at as int),
{
    b[at] as u32 + b[at + 1] as u32 * 256 + b[at + 2] as u32 * 65536 + b[at + 3] as u32 * 16777216
}

fn read_u64(b: &[u8], at: usize) -> (r: u64)
    requires
        at + 8 <= b.len(),
    ensures
        r == le_u64(b@, at as int),
{
    let lo = read_u32(b, at);
    let hi = read_u32(b, at + 4);
    lo as u64 + hi as u64 * 4294967296
}

/// Copies `b[at..at + N]` into `dst`.
fn copy_into<const N: usize>(dst: &mut [u8; N], b: &[u8], at: usize)
    requires
        at + N <= b.len(),
    ensures
        final(dst)@ == b@.subrange(at as int, at + N),
{
    let mut i: usize = 0;
    while i < N
        invariant
            i <= N,
            at + N <= b.len(),
            forall|j: int| 0 <= j < i ==> dst@[j] == b@[at + j],
        decreases N - i,
    {
        dst[i] = b[at + i];
        i = i + 1;
    }
    assert(dst@ =~= b@.subrange(at as int, at + N));
}

/// The event at the start of a ring-buffer record; `None` for a record shorter
/// than an `Event`.
pub fn decode_event(bytes: &[u8]) -> (r: Option<Event>)
    ensures
        match r {
            Some(e) => bytes@.len() >= EVENT_SIZE && decodes_to(bytes@, e),
            None => bytes@.len() < EVENT_SIZE,
        },
{
    if bytes.len() < EVENT_SIZE {
        return None;
    }
    let mut padding = [0u8; 2];
    let mut comm = [0u8; 16];
    let mut detail = [0u8; 256];
    let mut payload = [0u8; 4096];
    copy_into(&mut padding, bytes, 30);
    copy_into(&mut comm, bytes, 32);
    copy_into(&mut detail, bytes, 48);
    copy_into(&mut payload, bytes, 304);
    Some(
        Event {
            timestamp_ns: read_u64(bytes, 0),
            pid: read_u32(bytes, 8),
            tid: read_u32(bytes, 12),
            payload_len: read_u32(bytes, 16),
            detail_len: read_u16(bytes, 20),
            port: read_u16(bytes, 22),
            addr_v4: read_u32(bytes, 24),
            event_type: bytes[28],
            flags: bytes[29],
            _padding: padding,
            comm,
            detail,
            payload,
        },
    )
}

/// The number that the bytes of `s` write in little-endian order: the sum of
/// `s[k] * 256^k`.
pub open spec fn little_endian(s: Seq<u8>) -> nat
    decreases s.len(),
{
    if s.len() == 0 {
        0
    } else {
        s[0] as nat + 256 * little_endian(s.drop_first())
    }
}

proof fn lemma_little_endian_step(b: Seq<u8>, i: int, j: int)
    requires
        0 <= i < j <= b.len(),
    ensures
        little_endian(b.subrange(i, j)) == b[i] as nat + 256 * little_endian(b.subrange(i + 1, j)),
{
    assert(b.subrange(i, j).drop_first() =~= b.subrange(i + 1, j));
}

proof fn lemma_little_endian_u16(b: Seq<u8>, at: int)
    requires
        0 <= at,
        at + 2 <= b.len(),
    ensures
        le_u16(b, at) as nat == little_endian(b.subrange(at, at + 2)),
{
    lemma_little_endian_step(b, at, at + 2);
    lemma_little_endian_step(b, at + 1, at + 2);
    assert(little_endian(b.subrange(at + 2, at + 2)) == 0);
}

proof fn lemma_little_endian_u32(b: Seq<u8>, at: int)
    requires
        0 <= at,
        at + 4 <= b.len(),
    ensures
        le_u32(b, at) as nat == little_endian(b.subrange(at, at + 4)),
{
    lemma_little_endian_step(b, at, at + 4);
    lemma_little_endian_step(b, at + 1, at + 4);
    lemma_little_endian_step(b, at + 2, at + 4);
    lemma_little_endian_step(b, at + 3, at + 4);
    assert(little_endian(b.subrange(at + 4, at + 4)) == 0);
}

proof fn lemma_little_endian_u64(b: Seq<u8>, at: int)
    requires
        0 <= at,
        at + 8 <= b.len(),
    ensures
        le_u64(b, at) as nat == little_endian(b.subrange(at, at + 8)),
{
    lemma_little_endian_step(b, at, at + 8);
    lemma_little_endian_step(b, at + 1, at + 8);
    lemma_little_endian_step(b, at + 2, at + 8);
    lemma_little_endian_step(b, at + 3, at + 8);
    lemma_little_endian_step(b, at + 4, at + 8);
    lemma_little_endian_step(b, at + 5, at + 8);
    lemma_little_endian_step(b, at + 6, at + 8);
    lemma_little_endian_step(b, at + 7, at + 8);
    assert(little_endian(b.subrange(at + 8, at + 8)) == 0);
    lemma_little_endian_u32(b, at);
    lemma_little_endian_u32(b, at + 4);
}

/// Every number field of a decoded event is the little-endian number its bytes
/// write in the record: the timestamp is bytes `0..8` read as a `u64`, the
/// PID bytes `8..12`, and so on through the layout.
pub proof fn lemma_decoded_numbers_are_little_endian(b: Seq<u8>, e: Event)
    requires
        b.len() >= EVENT_SIZE,
        decodes_to(b, e),
    ensures
        e.timestamp_ns as nat == little_endian(b.subrange(0, 8)),
        e.pid as nat == little_endian(b.subrange(8, 12)),
        e.tid as nat == little_endian(b.subrange(12, 16)),
        e.payload_len as nat == little_endian(b.subrange(16, 20)),
        e.detail_len as nat == little_endian(b.subrange(20, 22)),
        e.port as nat == little_endian(b.subrange(22, 24)),
        e.addr_v4 as nat == little_endian(b.subrange(24, 28)),
{
    lemma_little_endian_u64(b, 0);
    lemma_little_endian_u32(b, 8);
    lemma_little_endian_u32(b, 12);
    lemma_little_endian_u32(b, 16);
    lemma_little_endian_u16(b, 20);
    lemma_little_endian_u16(b, 22);
    lemma_little_endian_u32(b, 24);
}

} // verus!
