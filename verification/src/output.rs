//! Turning decoded events into display fields and table lines.
use vstd::prelude::*;
use std::collections::HashMap;
use crate::common::{Event, EventType, event_type_name};
use crate::redact::{redact_http_headers, redact_spec};
use crate::text::{
    chars_of, decimal_digits, decode_utf8_lossy, find_first, hex_digit, hex_digits,
    lemma_find_first_at, push_all, push_decimal, push_hex, push_char, string_from_chars,
    utf8_lossy_decode,
};

verus! {

/// Unicode general category Cc: the C0 controls, DEL and the C1 controls.
pub open spec fn is_control(c: char) -> bool {
    let u = c as u32;
    u <= 0x1f || (0x7f <= u && u <= 0x9f)
}

/// The visible form of one character in a table cell.
#[verifier::opaque]
pub open spec fn escape_char(c: char) -> Seq<char> {
    if c == '\\' {
        seq!['\\', '\\']
    } else if c == '\r' {
        seq!['\\', 'r']
    } else if c == '\n' {
        seq!['\\', 'n']
    } else if c == '\t' {
        seq!['\\', 't']
    } else if c == '\0' {
        seq!['\\', '0']
    } else if is_control(c) {
        seq!['\\', 'u', '{'] + hex_digits(c as u32 as nat) + seq!['}']
    } else {
        seq![c]
    }
}

/// Each character of `s` replaced by its visible form.
pub open spec fn escape_spec(s: Seq<char>) -> Seq<char>
    decreases s.len(),
{
    if s.len() == 0 {
        Seq::empty()
    } else {
        escape_spec(s.drop_last()) + escape_char(s.last())
    }
}

fn is_control_char(c: char) -> (r: bool)
    ensures
        r == is_control(c),
{
    let u = c as u32;
    u <= 0x1f || (0x7f <= u && u <= 0x9f)
}

/// Escapes backslashes and control characters so that one event stays on one
/// terminal line and cannot carry terminal escape sequences.
pub fn escape_table_field(value: &str) -> (r: String)
    ensures
        r@ == escape_spec(value@),
{
    let v = chars_of(value);
    let n = v.len();
    let mut out: Vec<char> = Vec::new();
    let mut i: usize = 0;
    while i < n
        invariant
            i <= n,
            n == v@.len(),
            out@ == escape_spec(v@.take(i as int)),
        decreases n - i,
    {
        let c = v[i];
        let ghost before = out@;
        if c == '\\' {
            push_all(&mut out, ['\\', '\\'].as_slice());
        } else if c == '\r' {
            push_all(&mut out, ['\\', 'r'].as_slice());
        } else if c == '\n' {
            push_all(&mut out, ['\\', 'n'].as_slice());
        } else if c == '\t' {
            push_all(&mut out, ['\\', 't'].as_slice());
        } else if c == '\0' {
            push_all(&mut out, ['\\', '0'].as_slice());
        } else if is_control_char(c) {
            push_all(&mut out, ['\\', 'u', '{'].as_slice());
            push_hex(&mut out, c as u32);
            out.push('}');
        } else {
            out.push(c);
        }
        assert(v@.take(i + 1).drop_last() =~= v@.take(i as int));
        proof {
            reveal(escape_char);
        }
        assert(out@ =~= before + escape_char(c));
        i = i + 1;
    }
    assert(v@.take(n as int) =~= v@);
    string_from_chars(&out)
}

proof fn lemma_hex_digits_visible(n: nat)
    ensures
        forall|i: int|
            0 <= i < hex_digits(n).len() ==> !is_control(#[trigger] hex_digits(n)[i]),
    decreases n,
{
    if n >= 16 {
        lemma_hex_digits_visible(n / 16);
        let d = n % 16;
        let p = hex_digits(n / 16);
        assert(!is_control(hex_digit(d)));
        assert forall|i: int| 0 <= i < hex_digits(n).len() implies !is_control(
            #[trigger] hex_digits(n)[i],
        ) by {
            if i < p.len() {
                assert(hex_digits(n)[i] == p[i]);
            } else {
                assert(hex_digits(n)[i] == hex_digit(d));
            }
        }
    } else {
        assert(!is_control(hex_digit(n)));
    }
}

/// Escaped text holds no control character, whatever the input.
pub proof fn lemma_escape_has_no_controls(s: Seq<char>)
    ensures
        forall|i: int|
            0 <= i < escape_spec(s).len() ==> !is_control(#[trigger] escape_spec(s)[i]),
    decreases s.len(),
{
    if s.len() > 0 {
        lemma_escape_has_no_controls(s.drop_last());
        let c = s.last();
        let prefix = escape_spec(s.drop_last());
        let piece = escape_char(c);
        reveal(escape_char);
        if is_control(c) && c != '\r' && c != '\n' && c != '\t' && c != '\0' && c != '\\' {
            lemma_hex_digits_visible(c as u32 as nat);
        }
        assert forall|i: int| 0 <= i < piece.len() implies !is_control(#[trigger] piece[i]) by {
            if is_control(c) && c != '\r' && c != '\n' && c != '\t' && c != '\0' && c != '\\' {
                let h = hex_digits(c as u32 as nat);
                if 3 <= i < 3 + h.len() {
                    assert(piece[i] == h[i - 3]);
                }
            }
        }
        assert forall|i: int| 0 <= i < escape_spec(s).len() implies !is_control(
            #[trigger] escape_spec(s)[i],
        ) by {
            if i < prefix.len() {
                assert(escape_spec(s)[i] == prefix[i]);
            } else {
                assert(escape_spec(s)[i] == piece[i - prefix.len()]);
            }
        }
    }
}


/// The bytes of `bytes` before its first NUL (all of them when there is none).
pub open spec fn nul_prefix(bytes: Seq<u8>) -> Seq<u8> {
    match find_first(bytes, 0u8) {
        Some(i) => bytes.take(i),
        None => bytes,
    }
}

/// The first `requested` bytes of `bytes` (at most all of them), cut at the first NUL.
pub open spec fn bounded_nul_prefix(bytes: Seq<u8>, requested: nat) -> Seq<u8> {
    nul_prefix(bytes.take(if requested < bytes.len() { requested as int } else { bytes.len() as int }))
}

/// Length of the NUL-free prefix of `bytes[..limit]`.
fn nul_prefix_len(bytes: &[u8], limit: usize) -> (r: usize)
    requires
        limit <= bytes@.len(),
    ensures
        r <= limit,
        nul_prefix(bytes@.take(limit as int)) == bytes@.take(r as int),
        !bytes@.take(r as int).contains(0u8),
{
    let mut k: usize = 0;
    while k < limit && bytes[k] != 0
        invariant
            k <= limit,
            limit <= bytes@.len(),
            forall|j: int| 0 <= j < k ==> bytes@[j] != 0u8,
        decreases limit - k,
    {
        k = k + 1;
    }
    proof {
        let s = bytes@.take(limit as int);
        assert forall|j: int| 0 <= j < k implies s[j] != 0u8 by {
            assert(s[j] == bytes@[j]);
        }
        if k < limit {
            assert(s[k as int] == bytes@[k as int]);
        }
        lemma_find_first_at(s, 0u8, k as int);
        assert(s.take(k as int) =~= bytes@.take(k as int));
        if k == limit {
            assert(s =~= bytes@.take(k as int));
        }
        let t = bytes@.take(k as int);
        assert forall|j: int| 0 <= j < t.len() implies t[j] != 0u8 by {
            assert(t[j] == bytes@[j]);
        }
    }
    k
}

/// The text of a NUL-terminated byte field such as a task command name.
pub fn nul_terminated(bytes: &[u8]) -> (r: String)
    ensures
        r@ == utf8_lossy_decode(nul_prefix(bytes@)),
        vstd::utf8::valid_utf8(nul_prefix(bytes@)) ==> r@ == vstd::utf8::decode_utf8(
            nul_prefix(bytes@),
        ),
        !r@.contains('\0'),
{
    let end = nul_prefix_len(bytes, bytes.len());
    assert(bytes@.take(bytes@.len() as int) =~= bytes@);
    let prefix = &bytes[0..end];
    assert(prefix@ =~= bytes@.take(end as int));
    decode_utf8_lossy(prefix)
}

/// The text of the first `requested_length` bytes of `bytes`, cut at the first NUL.
pub fn utf8_lossy(bytes: &[u8], requested_length: usize) -> (r: String)
    ensures
        r@ == utf8_lossy_decode(bounded_nul_prefix(bytes@, requested_length as nat)),
        vstd::utf8::valid_utf8(bounded_nul_prefix(bytes@, requested_length as nat)) ==> r@
            == vstd::utf8::decode_utf8(bounded_nul_prefix(bytes@, requested_length as nat)),
        !r@.contains('\0'),
{
    let length = if requested_length < bytes.len() {
        requested_length
    } else {
        bytes.len()
    };
    let end = nul_prefix_len(bytes, length);
    let prefix = &bytes[0..end];
    assert(prefix@ =~= bytes@.take(end as int));
    assert(bounded_nul_prefix(bytes@, requested_length as nat) == bytes@.take(end as int));
    decode_utf8_lossy(prefix)
}

/// `a.b.c.d:port` for an IPv4 address stored as its network-order bytes read
/// as a little-endian `u32` (the layout on the targets flowtap supports).
pub open spec fn endpoint_text(addr_v4: u32, port: u16) -> Seq<char> {
    let a = addr_v4 as nat;
    decimal_digits(a % 256) + seq!['.'] + decimal_digits((a / 256) % 256) + seq!['.']
        + decimal_digits((a / 65536) % 256) + seq!['.'] + decimal_digits(a / 16777216) + seq![':']
        + decimal_digits(port as nat)
}

fn endpoint_string(addr_v4: u32, port: u16) -> (r: String)
    ensures
        r@ == endpoint_text(addr_v4, port),
{
    let mut out: Vec<char> = Vec::new();
    push_decimal(&mut out, addr_v4 % 256);
    out.push('.');
    push_decimal(&mut out, (addr_v4 / 256) % 256);
    out.push('.');
    push_decimal(&mut out, (addr_v4 / 65536) % 256);
    out.push('.');
    push_decimal(&mut out, addr_v4 / 16777216);
    out.push(':');
    push_decimal(&mut out, port as u32);
    assert(out@ =~= endpoint_text(addr_v4, port));
    string_from_chars(&out)
}

/// What is remembered of a process from its last observed EXEC.
pub struct ProcessInfo {
    pub comm: String,
    pub command: String,
}

/// One event made ready for display.
pub struct Record {
    pub kind: EventType,
    pub pid: u32,
    pub tid: u32,
    pub comm: String,
    pub detail: String,
    pub correlated_exec: Option<String>,
    pub truncated: bool,
}

/// The content of a `Record`.
pub struct RecordView {
    pub kind: EventType,
    pub pid: u32,
    pub tid: u32,
    pub comm: Seq<char>,
    pub detail: Seq<char>,
    pub correlated_exec: Option<Seq<char>>,
    pub truncated: bool,
}

pub open spec fn option_string_view(o: Option<String>) -> Option<Seq<char>> {
    match o {
        Some(s) => Some(s@),
        None => None,
    }
}

impl View for Record {
    type V = RecordView;

    open spec fn view(&self) -> RecordView {
        RecordView {
            kind: self.kind,
            pid: self.pid,
            tid: self.tid,
            comm: self.comm@,
            detail: self.detail@,
            correlated_exec: option_string_view(self.correlated_exec),
            truncated: self.truncated,
        }
    }
}

/// Per-PID memory of `(comm, command line)` from EXEC events.
pub type Known = Map<u32, (Seq<char>, Seq<char>)>;

pub open spec fn event_kind(code: u8) -> Option<EventType> {
    if code == 1 {
        Some(EventType::Exec)
    } else if code == 2 {
        Some(EventType::Connect)
    } else if code == 3 {
        Some(EventType::TlsWrite)
    } else if code == 4 {
        Some(EventType::TlsRead)
    } else {
        None
    }
}

/// The command line shown for an EXEC: the one read from `/proc` when it is
/// non-empty, else the filename the probe captured.
pub open spec fn exec_command(event: Event, cmdline: Option<Seq<char>>) -> Seq<char> {
    let filename = utf8_lossy_decode(bounded_nul_prefix(event.detail@, event.detail_len as nat));
    match cmdline {
        Some(c) => if c.len() > 0 {
            c
        } else {
            filename
        },
        None => filename,
    }
}

/// The command name shown for a CONNECT or TLS event: the remembered one when
/// it is non-empty, else the one in the event.
pub open spec fn shown_comm(known: Known, event: Event) -> Seq<char> {
    if known.contains_key(event.pid) && known[event.pid].0.len() > 0 {
        known[event.pid].0
    } else {
        utf8_lossy_decode(nul_prefix(event.comm@))
    }
}

pub open spec fn remembered_command(known: Known, pid: u32) -> Option<Seq<char>> {
    if known.contains_key(pid) {
        Some(known[pid].1)
    } else {
        None
    }
}

/// The captured TLS bytes: `payload_len` of them, at most the whole buffer.
pub open spec fn payload_bytes(event: Event) -> Seq<u8> {
    bounded_take(event.payload@, event.payload_len as nat)
}

pub open spec fn bounded_take(s: Seq<u8>, n: nat) -> Seq<u8> {
    if n < s.len() {
        s.take(n as int)
    } else {
        s
    }
}

pub open spec fn is_truncated(event: Event) -> bool {
    event.flags & 1u8 != 0
}

/// The detail shown for a TLS event.
pub open spec fn tls_detail(event: Event, redact: bool) -> Seq<char> {
    let raw = utf8_lossy_decode(payload_bytes(event));
    let text = if redact {
        redact_spec(raw)
    } else {
        raw
    };
    if is_truncated(event) {
        text.push('\u{2026}')
    } else {
        text
    }
}

/// What one event turns into, and the memory after it.
pub open spec fn record_step(known: Known, redact: bool, event: Event, cmdline: Option<Seq<char>>) -> (
    Option<RecordView>,
    Known,
) {
    match event_kind(event.event_type) {
        None => (None, known),
        Some(kind) => {
            let event_comm = utf8_lossy_decode(nul_prefix(event.comm@));
            let base = RecordView {
                kind,
                pid: event.pid,
                tid: event.tid,
                comm: event_comm,
                detail: Seq::empty(),
                correlated_exec: None,
                truncated: is_truncated(event),
            };
            match kind {
                EventType::Exec => {
                    let command = exec_command(event, cmdline);
                    (
                        Some(RecordView { detail: command, correlated_exec: Some(command), ..base }),
                        known.insert(event.pid, (event_comm, command)),
                    )
                },
                EventType::Connect => (
                    Some(
                        RecordView {
                            comm: shown_comm(known, event),
                            detail: endpoint_text(event.addr_v4, event.port),
                            correlated_exec: remembered_command(known, event.pid),
                            ..base
                        },
                    ),
                    known,
                ),
                _ => (
                    Some(
                        RecordView {
                            comm: shown_comm(known, event),
                            detail: tls_detail(event, redact),
                            correlated_exec: remembered_command(known, event.pid),
                            ..base
                        },
                    ),
                    known,
                ),
            }
        },
    }
}

/// Output settings and the PID correlation memory.
pub struct Processor {
    json: bool,
    redact: bool,
    processes: HashMap<u32, ProcessInfo>,
}

impl Processor {
    pub closed spec fn known(&self) -> Known {
        self.processes@.map_values(|p: ProcessInfo| (p.comm@, p.command@))
    }

    pub closed spec fn json_spec(&self) -> bool {
        self.json
    }

    pub closed spec fn redact_spec_flag(&self) -> bool {
        self.redact
    }

    /// A processor that has seen no event yet.
    pub fn new(json: bool, redact: bool) -> (r: Processor)
        ensures
            r.json_spec() == json,
            r.redact_spec_flag() == redact,
            r.known() == Map::<u32, (Seq<char>, Seq<char>)>::empty(),
    {
        let r = Processor { json, redact, processes: HashMap::new() };
        assert(r.known() =~= Map::<u32, (Seq<char>, Seq<char>)>::empty());
        r
    }

    /// The column header to print before the first record: none in JSON mode.
    pub fn header(&self) -> (r: Option<String>)
        ensures
            match r {
                Some(h) => !self.json_spec() && h@ == table_header_spec(),
                None => self.json_spec(),
            },
    {
        if self.json {
            None
        } else {
            Some(table_header())
        }
    }

    /// Whether records are printed as JSON lines.
    pub fn json(&self) -> (r: bool)
        ensures
            r == self.json_spec(),
    {
        self.json
    }

    /// Correlates one event with the memory and turns it into a record.
    /// `cmdline` is the process's `/proc/<pid>/cmdline` joined by spaces, when it
    /// could be read; it is only used for EXEC events.
    pub fn record(&mut self, event: &Event, cmdline: Option<String>) -> (r: Option<Record>)
        ensures
            final(self).json_spec() == old(self).json_spec(),
            final(self).redact_spec_flag() == old(self).redact_spec_flag(),
            ({
                let (expected, known) = record_step(
                    old(self).known(),
                    old(self).redact_spec_flag(),
                    *event,
                    option_string_view(cmdline),
                );
                &&& option_record_view(r) == expected
                &&& final(self).known() == known
            }),
            event_kind(event.event_type) is Some && vstd::utf8::valid_utf8(nul_prefix(event.comm@))
                ==> utf8_lossy_decode(nul_prefix(event.comm@)) == vstd::utf8::decode_utf8(
                nul_prefix(event.comm@),
            ),
            ({
                let filename = bounded_nul_prefix(event.detail@, event.detail_len as nat);
                event_kind(event.event_type) == Some(EventType::Exec) && vstd::utf8::valid_utf8(
                    filename,
                ) ==> utf8_lossy_decode(filename) == vstd::utf8::decode_utf8(filename)
            }),
            (event_kind(event.event_type) == Some(EventType::TlsWrite) || event_kind(
                event.event_type,
            ) == Some(EventType::TlsRead)) && vstd::utf8::valid_utf8(payload_bytes(*event))
                ==> utf8_lossy_decode(payload_bytes(*event)) == vstd::utf8::decode_utf8(
                payload_bytes(*event),
            ),
    {
        broadcast use vstd::std_specs::hash::group_hash_axioms;

        let kind = match EventType::from_u8(event.event_type) {
            Some(kind) => kind,
            None => return None,
        };
        let event_comm = nul_terminated(event.comm.as_slice());
        let truncated = event.flags & 1u8 != 0;
        match kind {
            EventType::Exec => {
                let filename = utf8_lossy(event.detail.as_slice(), event.detail_len as usize);
                let command = match cmdline {
                    Some(c) => if c.as_str().is_empty() {
                        filename
                    } else {
                        c
                    },
                    None => filename,
                };
                let ghost old_map = self.processes@;
                self.processes.insert(
                    event.pid,
                    ProcessInfo { comm: event_comm.clone(), command: command.clone() },
                );
                proof {
                    assert(self.known() =~= old(self).known().insert(
                        event.pid,
                        (event_comm@, command@),
                    ));
                }
                let correlated = Some(command.clone());
                Some(
                    Record {
                        kind,
                        pid: event.pid,
                        tid: event.tid,
                        comm: event_comm,
                        detail: command,
                        correlated_exec: correlated,
                        truncated,
                    },
                )
            },
            EventType::Connect => {
                let (comm, correlated) = self.remembered(event.pid, event_comm);
                let detail = endpoint_string(event.addr_v4, event.port);
                Some(
                    Record {
                        kind,
                        pid: event.pid,
                        tid: event.tid,
                        comm,
                        detail,
                        correlated_exec: correlated,
                        truncated,
                    },
                )
            },
            _ => {
                let (comm, correlated) = self.remembered(event.pid, event_comm);
                let payload_length = if (event.payload_len as usize) < event.payload.len() {
                    event.payload_len as usize
                } else {
                    event.payload.len()
                };
                let bytes = &event.payload.as_slice()[0..payload_length];
                assert(bytes@ =~= payload_bytes(*event));
                let raw = decode_utf8_lossy(bytes);
                let mut detail = if self.redact {
                    redact_http_headers(raw.as_str())
                } else {
                    raw
                };
                if truncated {
                    push_char(&mut detail, '\u{2026}');
                }
                Some(
                    Record {
                        kind,
                        pid: event.pid,
                        tid: event.tid,
                        comm,
                        detail,
                        correlated_exec: correlated,
                        truncated,
                    },
                )
            },
        }
    }

    /// The shown command name and the remembered command line for `pid`.
    fn remembered(&self, pid: u32, event_comm: String) -> (r: (String, Option<String>))
        ensures
            ({
                let known = self.known();
                &&& r.0@ == (if known.contains_key(pid) && known[pid].0.len() > 0 {
                    known[pid].0
                } else {
                    event_comm@
                })
                &&& option_string_view(r.1) == remembered_command(known, pid)
            }),
    {
        broadcast use vstd::std_specs::hash::group_hash_axioms;

        match self.processes.get(&pid) {
            Some(info) => {
                let comm = if info.comm.as_str().is_empty() {
                    event_comm
                } else {
                    info.comm.clone()
                };
                (comm, Some(info.command.clone()))
            },
            None => (event_comm, None),
        }
    }
}

pub open spec fn option_record_view(r: Option<Record>) -> Option<RecordView> {
    match r {
        Some(rec) => Some(rec@),
        None => None,
    }
}

/// `s` filled with spaces on the right up to `width` characters.
pub open spec fn pad_right(s: Seq<char>, width: nat) -> Seq<char> {
    if s.len() >= width {
        s
    } else {
        s + Seq::new((width - s.len()) as nat, |_i: int| ' ')
    }
}

fn push_padded(out: &mut Vec<char>, s: &Vec<char>, width: usize)
    ensures
        final(out)@ == old(out)@ + pad_right(s@, width as nat),
{
    push_all(out, s.as_slice());
    let mut k = s.len();
    while k < width
        invariant
            s@.len() <= width ==> out@ == old(out)@ + s@ + Seq::new(
                (k - s@.len()) as nat,
                |_i: int| ' ',
            ),
            s@.len() > width ==> out@ == old(out)@ + s@,
            s@.len() <= k,
            s@.len() <= width ==> k <= width,
        decreases width - k,
    {
        let ghost before = out@;
        out.push(' ');
        assert(Seq::new((k + 1 - s@.len()) as nat, |_i: int| ' ') =~= Seq::new(
            (k - s@.len()) as nat,
            |_i: int| ' ',
        ).push(' '));
        k = k + 1;
    }
    assert(out@ =~= old(out)@ + pad_right(s@, width as nat));
}

pub open spec fn table_header_spec() -> Seq<char> {
    pad_right(seq!['T', 'I', 'M', 'E'], 32) + seq![' '] + pad_right(seq!['P', 'I', 'D'], 7) + seq![
        ' ',
    ] + pad_right(seq!['C', 'O', 'M', 'M'], 15) + seq![' '] + pad_right(
        seq!['E', 'V', 'E', 'N', 'T'],
        11,
    ) + seq![' ', 'D', 'E', 'T', 'A', 'I', 'L']
}

/// The column header printed above table output.
pub fn table_header() -> (r: String)
    ensures
        r@ == table_header_spec(),
{
    let mut out: Vec<char> = Vec::new();
    let time = vec!['T', 'I', 'M', 'E'];
    let pid = vec!['P', 'I', 'D'];
    let comm = vec!['C', 'O', 'M', 'M'];
    let event = vec!['E', 'V', 'E', 'N', 'T'];
    push_padded(&mut out, &time, 32);
    out.push(' ');
    push_padded(&mut out, &pid, 7);
    out.push(' ');
    push_padded(&mut out, &comm, 15);
    out.push(' ');
    push_padded(&mut out, &event, 11);
    push_all(&mut out, [' ', 'D', 'E', 'T', 'A', 'I', 'L'].as_slice());
    assert(time@ =~= seq!['T', 'I', 'M', 'E']);
    assert(pid@ =~= seq!['P', 'I', 'D']);
    assert(comm@ =~= seq!['C', 'O', 'M', 'M']);
    assert(event@ =~= seq!['E', 'V', 'E', 'N', 'T']);
    assert(out@ =~= table_header_spec());
    string_from_chars(&out)
}

pub open spec fn table_line_spec(timestamp: Seq<char>, record: RecordView) -> Seq<char> {
    pad_right(timestamp, 32) + seq![' '] + pad_right(decimal_digits(record.pid as nat), 7) + seq![
        ' ',
    ] + pad_right(escape_spec(record.comm), 15) + seq![' '] + pad_right(
        event_type_name(record.kind),
        11,
    ) + seq![' '] + escape_spec(record.detail)
}

/// One table row: time, PID, escaped command name, event kind, escaped detail.
pub fn table_line(timestamp: &str, record: &Record) -> (r: String)
    ensures
        r@ == table_line_spec(timestamp@, record@),
{
    let mut out: Vec<char> = Vec::new();
    let ts = chars_of(timestamp);
    push_padded(&mut out, &ts, 32);
    out.push(' ');
    let mut pid: Vec<char> = Vec::new();
    push_decimal(&mut pid, record.pid);
    assert(pid@ =~= decimal_digits(record.pid as nat));
    push_padded(&mut out, &pid, 7);
    out.push(' ');
    let comm = chars_of(escape_table_field(record.comm.as_str()).as_str());
    push_padded(&mut out, &comm, 15);
    out.push(' ');
    let kind = chars_of(record.kind.as_str());
    push_padded(&mut out, &kind, 11);
    out.push(' ');
    let detail = chars_of(escape_table_field(record.detail.as_str()).as_str());
    push_all(&mut out, detail.as_slice());
    assert(out@ =~= table_line_spec(timestamp@, record@));
    string_from_chars(&out)
}


/// After an EXEC of a process, its CONNECT and TLS events carry the command
/// line of that EXEC, and its command name when that is not empty; events of
/// other kinds leave the memory unchanged.
pub proof fn lemma_exec_then_event_correlates(
    known: Known,
    redact: bool,
    exec: Event,
    cmdline: Option<Seq<char>>,
    later: Event,
)
    requires
        exec.event_type == 1,
        2 <= later.event_type <= 4,
        later.pid == exec.pid,
    ensures
        ({
            let (first, after_exec) = record_step(known, redact, exec, cmdline);
            let (second, after_later) = record_step(after_exec, redact, later, None);
            &&& first matches Some(r1)
            &&& second matches Some(r2)
            &&& r2.correlated_exec == Some(r1.detail)
            &&& r1.comm.len() > 0 ==> r2.comm == r1.comm
            &&& after_later == after_exec
        }),
{
}

/// TLS_READ and TLS_WRITE events are shown alike: two events that differ only
/// in that kind get the same detail, command name and correlation, and leave
/// the memory as it was. The detail is the decoded payload, masked whenever
/// redaction is on, with `…` after it when the capture was cut.
pub proof fn lemma_tls_reads_and_writes_are_shown_alike(
    known: Known,
    redact: bool,
    event: Event,
    cmdline: Option<Seq<char>>,
)
    requires
        event.event_type == 3u8 || event.event_type == 4u8,
    ensures
        ({
            let other = Event {
                event_type: if event.event_type == 3u8 {
                    4u8
                } else {
                    3u8
                },
                ..event
            };
            let (r1, k1) = record_step(known, redact, event, cmdline);
            let (r2, k2) = record_step(known, redact, other, cmdline);
            let raw = utf8_lossy_decode(payload_bytes(event));
            let text = if redact {
                redact_spec(raw)
            } else {
                raw
            };
            &&& r1 is Some && r2 is Some
            &&& r1->Some_0.detail == r2->Some_0.detail
            &&& r1->Some_0.comm == r2->Some_0.comm
            &&& r1->Some_0.correlated_exec == r2->Some_0.correlated_exec
            &&& r1->Some_0.truncated == r2->Some_0.truncated
            &&& k1 == known && k2 == known
            &&& r1->Some_0.detail == text + (if event.flags & 1u8 != 0 {
                seq!['\u{2026}']
            } else {
                Seq::<char>::empty()
            })
        }),
{
    let raw = utf8_lossy_decode(payload_bytes(event));
    let text = if redact {
        redact_spec(raw)
    } else {
        raw
    };
    assert(text.push('\u{2026}') =~= text + seq!['\u{2026}']);
    assert(text + Seq::<char>::empty() =~= text);
}


/// Events with a type byte outside `1..=4` produce nothing and change nothing.
pub proof fn lemma_unknown_events_are_ignored(
    known: Known,
    redact: bool,
    event: Event,
    cmdline: Option<Seq<char>>,
)
    requires
        !(1 <= event.event_type <= 4),
    ensures
        record_step(known, redact, event, cmdline) == (None::<RecordView>, known),
{
}


/// The non-empty NUL-separated arguments of a `/proc/<pid>/cmdline` file.
pub open spec fn cmdline_args(b: Seq<u8>) -> Seq<Seq<u8>>
    decreases b.len(),
{
    match find_first(b, 0u8) {
        Some(i) => {
            proof {
                crate::text::lemma_find_first(b, 0u8);
            }
            (if i > 0 {
                seq![b.take(i)]
            } else {
                Seq::empty()
            }) + cmdline_args(b.skip(i + 1))
        },
        None => if b.len() > 0 {
            seq![b]
        } else {
            Seq::empty()
        },
    }
}

/// Each argument decoded and preceded by a space.
pub open spec fn spaced_args(args: Seq<Seq<u8>>) -> Seq<char>
    decreases args.len(),
{
    if args.len() == 0 {
        Seq::empty()
    } else {
        seq![' '] + utf8_lossy_decode(args[0]) + spaced_args(args.drop_first())
    }
}

/// The decoded arguments joined by single spaces.
pub open spec fn joined_args(args: Seq<Seq<u8>>) -> Seq<char> {
    if args.len() == 0 {
        Seq::empty()
    } else {
        utf8_lossy_decode(args[0]) + spaced_args(args.drop_first())
    }
}

/// An argument that is valid UTF-8 decodes to the text it encodes.
pub open spec fn decodes_plainly(arg: Seq<u8>) -> bool {
    vstd::utf8::valid_utf8(arg) ==> utf8_lossy_decode(arg) == vstd::utf8::decode_utf8(arg)
}

/// The command line shown for the contents of a `/proc/<pid>/cmdline` file:
/// its non-empty arguments, decoded, joined by spaces. Each argument that is
/// valid UTF-8 shows as the text it encodes.
pub fn cmdline_text(bytes: &[u8]) -> (r: String)
    ensures
        r@ == joined_args(cmdline_args(bytes@)),
        forall|arg: Seq<u8>| #[trigger] cmdline_args(bytes@).contains(arg) ==> decodes_plainly(arg),
{
    let n = bytes.len();
    let mut out: Vec<char> = Vec::new();
    let mut seen_any = false;
    let mut pos: usize = 0;
    assert(bytes@.skip(0) =~= bytes@);
    while pos < n
        invariant
            pos <= n,
            n == bytes@.len(),
            joined_args(cmdline_args(bytes@)) == out@ + (if seen_any {
                spaced_args(cmdline_args(bytes@.skip(pos as int)))
            } else {
                joined_args(cmdline_args(bytes@.skip(pos as int)))
            }),
            forall|arg: Seq<u8>| #[trigger] cmdline_args(bytes@).contains(arg) ==> decodes_plainly(arg)
                || cmdline_args(bytes@.skip(pos as int)).contains(arg),
        decreases n - pos,
    {
        let mut k = pos;
        while k < n && bytes[k] != 0
            invariant
                pos <= k <= n,
                n == bytes@.len(),
                forall|j: int| pos <= j < k ==> bytes@[j] != 0u8,
            decreases n - k,
        {
            k = k + 1;
        }
        let ghost rest = bytes@.skip(pos as int);
        proof {
            assert forall|j: int| 0 <= j < k - pos implies rest[j] != 0u8 by {
                assert(rest[j] == bytes@[pos + j]);
            }
            if k < n {
                assert(rest[k - pos] == bytes@[k as int]);
            }
            lemma_find_first_at(rest, 0u8, k - pos);
            assert(rest.take(k - pos) =~= bytes@.subrange(pos as int, k as int));
            if k < n {
                assert(rest.skip(k - pos + 1) =~= bytes@.skip(k + 1));
            }
        }
        let ghost args = cmdline_args(rest);
        let ghost next = if k < n {
            cmdline_args(bytes@.skip(k + 1))
        } else {
            Seq::<Seq<u8>>::empty()
        };
        if k > pos {
            let segment = &bytes[pos..k];
            let text = decode_utf8_lossy(segment);
            let piece = chars_of(text.as_str());
            proof {
                assert(args =~= seq![bytes@.subrange(pos as int, k as int)] + next);
                assert(args.drop_first() =~= next);
                assert forall|arg: Seq<u8>| #[trigger] args.contains(arg) implies arg
                    == segment@ || next.contains(arg) by {
                    let idx = choose|idx: int| 0 <= idx < args.len() && args[idx] == arg;
                    if idx > 0 {
                        assert(next[idx - 1] == arg);
                    }
                }
            }
            if seen_any {
                out.push(' ');
            }
            push_all(&mut out, piece.as_slice());
            seen_any = true;
        } else {
            assert(args =~= next);
        }
        if k < n {
            pos = k + 1;
        } else {
            pos = n;
            assert(bytes@.skip(n as int) =~= Seq::<u8>::empty());
            assert(cmdline_args(Seq::<u8>::empty()) =~= Seq::<Seq<u8>>::empty());
        }
    }
    string_from_chars(&out)
}


/// `s` holds no control character.
pub open spec fn is_visible(s: Seq<char>) -> bool {
    forall|i: int| 0 <= i < s.len() ==> !is_control(#[trigger] s[i])
}

proof fn lemma_visible_concat(a: Seq<char>, b: Seq<char>)
    requires
        is_visible(a),
        is_visible(b),
    ensures
        is_visible(a + b),
{
    assert forall|i: int| 0 <= i < (a + b).len() implies !is_control(#[trigger] (a + b)[i]) by {
        if i < a.len() {
            assert((a + b)[i] == a[i]);
        } else {
            assert((a + b)[i] == b[i - a.len()]);
        }
    }
}

proof fn lemma_decimal_digits_visible(n: nat)
    ensures
        is_visible(decimal_digits(n)),
    decreases n,
{
    if n >= 10 {
        lemma_decimal_digits_visible(n / 10);
        lemma_visible_concat(decimal_digits(n / 10), seq![crate::text::decimal_digit(n % 10)]);
    }
}

proof fn lemma_pad_visible(s: Seq<char>, width: nat)
    requires
        is_visible(s),
    ensures
        is_visible(pad_right(s, width)),
{
    if s.len() < width {
        let spaces = Seq::new((width - s.len()) as nat, |_i: int| ' ');
        assert(is_visible(spaces));
        lemma_visible_concat(s, spaces);
    }
}

/// The columns of a table row: it starts with the timestamp, and after the
/// timestamp column (32 characters, or the whole timestamp when longer) and a
/// space comes the PID column, the process ID padded to 7; the row ends with
/// the escaped detail. A row depends on the record only through its PID,
/// command name, kind and detail: the thread ID never shows.
pub proof fn lemma_table_row_columns(timestamp: Seq<char>, record: RecordView, other: RecordView)
    ensures
        ({
            let row = table_line_spec(timestamp, record);
            let start = (if timestamp.len() < 32 {
                32
            } else {
                timestamp.len() as int
            }) + 1;
            let pid_column = pad_right(decimal_digits(record.pid as nat), 7);
            let detail = escape_spec(record.detail);
            &&& row.take(timestamp.len() as int) == timestamp
            &&& row[start - 1] == ' '
            &&& row.subrange(start, start + pid_column.len()) == pid_column
            &&& row.len() >= start + pid_column.len() + detail.len()
            &&& row.skip(row.len() - detail.len()) == detail
        }),
        other.pid == record.pid && other.comm == record.comm && other.kind == record.kind
            && other.detail == record.detail ==> table_line_spec(timestamp, other)
            == table_line_spec(timestamp, record),
{
    let ts = pad_right(timestamp, 32);
    let pid_column = pad_right(decimal_digits(record.pid as nat), 7);
    let detail = escape_spec(record.detail);
    let head = ts + seq![' '];
    let with_pid = head + pid_column;
    let rest = seq![' '] + pad_right(escape_spec(record.comm), 15) + seq![' '] + pad_right(
        event_type_name(record.kind),
        11,
    ) + seq![' '];
    let row = table_line_spec(timestamp, record);
    assert(row =~= with_pid + rest + detail);
    let start = head.len() as int;
    assert(row.take(timestamp.len() as int) =~= timestamp);
    assert(row[start - 1] == ' ');
    assert(row.subrange(start, start + pid_column.len()) =~= pid_column);
    assert(row.skip(row.len() - detail.len()) =~= detail);
}


/// A table row holds no control character whenever its timestamp holds none,
/// whatever the command name and the detail: one event is one terminal line,
/// and captured text cannot send terminal escape sequences.
pub proof fn lemma_table_line_is_visible(timestamp: Seq<char>, record: RecordView)
    requires
        is_visible(timestamp),
    ensures
        is_visible(table_line_spec(timestamp, record)),
{
    let space = seq![' '];
    assert(is_visible(space));
    lemma_escape_has_no_controls(record.comm);
    lemma_escape_has_no_controls(record.detail);
    lemma_decimal_digits_visible(record.pid as nat);
    assert(is_visible(event_type_name(record.kind)));
    lemma_pad_visible(timestamp, 32);
    lemma_pad_visible(decimal_digits(record.pid as nat), 7);
    lemma_pad_visible(escape_spec(record.comm), 15);
    lemma_pad_visible(event_type_name(record.kind), 11);
    let p1 = pad_right(timestamp, 32) + space;
    lemma_visible_concat(pad_right(timestamp, 32), space);
    let p2 = p1 + pad_right(decimal_digits(record.pid as nat), 7);
    lemma_visible_concat(p1, pad_right(decimal_digits(record.pid as nat), 7));
    let p3 = p2 + space;
    lemma_visible_concat(p2, space);
    let p4 = p3 + pad_right(escape_spec(record.comm), 15);
    lemma_visible_concat(p3, pad_right(escape_spec(record.comm), 15));
    let p5 = p4 + space;
    lemma_visible_concat(p4, space);
    let p6 = p5 + pad_right(event_type_name(record.kind), 11);
    lemma_visible_concat(p5, pad_right(event_type_name(record.kind), 11));
    let p7 = p6 + space;
    lemma_visible_concat(p6, space);
    lemma_visible_concat(p7, escape_spec(record.detail));
}


proof fn lemma_escape_front(s: Seq<char>)
    requires
        s.len() > 0,
    ensures
        escape_spec(s) == escape_char(s[0]) + escape_spec(s.drop_first()),
    decreases s.len(),
{
    if s.len() == 1 {
        assert(s.drop_last() =~= Seq::<char>::empty());
        assert(s.drop_first() =~= Seq::<char>::empty());
        assert(escape_char(s[0]) + Seq::<char>::empty() =~= escape_char(s[0]));
    } else {
        lemma_escape_front(s.drop_last());
        assert(s.drop_last().drop_first() =~= s.drop_first().drop_last());
        assert(s.drop_first().last() == s.last());
        assert(s.drop_last()[0] == s[0]);
        assert(escape_spec(s) =~= escape_char(s[0]) + escape_spec(s.drop_first()));
    }
}

proof fn lemma_hex_digit_injective(d: nat, e: nat)
    requires
        d < 16,
        e < 16,
        hex_digit(d) == hex_digit(e),
    ensures
        d == e,
{
    assert(hex_digit(d) as u32 == hex_digit(e) as u32);
}

proof fn lemma_hex_digits_len(n: nat)
    ensures
        hex_digits(n).len() >= 1,
        n >= 16 ==> hex_digits(n).len() >= 2,
    decreases n,
{
    if n >= 16 {
        lemma_hex_digits_len(n / 16);
    }
}

proof fn lemma_hex_digits_injective(n: nat, m: nat)
    requires
        hex_digits(n) == hex_digits(m),
    ensures
        n == m,
    decreases n,
{
    lemma_hex_digits_len(n);
    lemma_hex_digits_len(m);
    if n < 16 && m < 16 {
        assert(hex_digits(n) == seq![hex_digit(n)]);
        assert(hex_digits(m) == seq![hex_digit(m)]);
        assert(seq![hex_digit(n)][0] == hex_digit(n));
        assert(seq![hex_digit(m)][0] == hex_digit(m));
        assert(hex_digit(n) == hex_digit(m));
        lemma_hex_digit_injective(n, m);
    } else if n >= 16 && m >= 16 {
        let hn = hex_digits(n);
        let hm = hex_digits(m);
        assert(hn.last() == hex_digit(n % 16));
        assert(hm.last() == hex_digit(m % 16));
        lemma_hex_digit_injective(n % 16, m % 16);
        assert(hn.drop_last() =~= hex_digits(n / 16));
        assert(hm.drop_last() =~= hex_digits(m / 16));
        lemma_hex_digits_injective(n / 16, m / 16);
    } else {
        assert(hex_digits(n).len() != hex_digits(m).len());
    }
}

proof fn lemma_hex_has_no_brace(n: nat)
    ensures
        forall|i: int| 0 <= i < hex_digits(n).len() ==> #[trigger] hex_digits(n)[i] != '}',
    decreases n,
{
    if n >= 16 {
        lemma_hex_has_no_brace(n / 16);
        let h = hex_digits(n);
        let p = hex_digits(n / 16);
        assert forall|i: int| 0 <= i < h.len() implies #[trigger] h[i] != '}' by {
            if i < p.len() {
                assert(h[i] == p[i]);
            } else {
                assert(h[i] == hex_digit(n % 16));
            }
        }
    }
}

/// Two characters whose visible forms start equal texts are the same character.
#[verifier::spinoff_prover]
proof fn lemma_escape_char_prefix(x: char, y: char, r1: Seq<char>, r2: Seq<char>)
    requires
        escape_char(x) + r1 == escape_char(y) + r2,
    ensures
        x == y,
{
    reveal(escape_char);
    let e = escape_char(x) + r1;
    let ex = escape_char(x);
    let ey = escape_char(y);
    assert(e[0] == ex[0]);
    assert(e[0] == (escape_char(y) + r2)[0]);
    assert(ey[0] == (escape_char(y) + r2)[0]);
    let plain_x = !(x == '\\' || is_control(x));
    let plain_y = !(y == '\\' || is_control(y));
    if plain_x || plain_y {
        assert(x == y);
    } else {
        assert(e[1] == ex[1]);
        assert((escape_char(y) + r2)[1] == ey[1]);
        let ux = is_control(x) && x != '\r' && x != '\n' && x != '\t' && x != '\0';
        let uy = is_control(y) && y != '\r' && y != '\n' && y != '\t' && y != '\0';
        if !ux || !uy {
            assert(x == y);
        } else {
            let hx = hex_digits(x as u32 as nat);
            let hy = hex_digits(y as u32 as nat);
            lemma_hex_has_no_brace(x as u32 as nat);
            lemma_hex_has_no_brace(y as u32 as nat);
            let f = escape_char(y) + r2;
            assert forall|i: int| 0 <= i < hx.len() + 4 implies e[i] == ex[i] by {}
            assert forall|i: int| 0 <= i < hy.len() + 4 implies f[i] == ey[i] by {}
            if hx.len() < hy.len() {
                assert(ex[3 + hx.len() as int] == '}');
                assert(ey[3 + hx.len() as int] == hy[hx.len() as int]);
                assert(false);
            } else if hy.len() < hx.len() {
                assert(ey[3 + hy.len() as int] == '}');
                assert(ex[3 + hy.len() as int] == hx[hy.len() as int]);
                assert(false);
            } else {
                assert forall|i: int| 0 <= i < hx.len() implies hx[i] == hy[i] by {
                    assert(ex[3 + i] == hx[i]);
                    assert(ey[3 + i] == hy[i]);
                }
                assert(hx =~= hy);
                lemma_hex_digits_injective(x as u32 as nat, y as u32 as nat);
            }
        }
    }
}

/// Every character has a visible form of at least one character.
proof fn lemma_escape_char_nonempty(c: char)
    ensures
        escape_char(c).len() > 0,
{
    reveal(escape_char);
}

/// Escaping a non-empty text gives a non-empty text.
proof fn lemma_escape_nonempty(s: Seq<char>)
    requires
        s.len() > 0,
    ensures
        escape_spec(s).len() > 0,
{
    lemma_escape_front(s);
    lemma_escape_char_nonempty(s[0]);
}

/// Table escaping is injective: two fields with the same escaped text are the
/// same field, so the escaped text can always be read back.
#[verifier::spinoff_prover]
pub proof fn lemma_escape_is_injective(a: Seq<char>, b: Seq<char>)
    requires
        escape_spec(a) == escape_spec(b),
    ensures
        a == b,
    decreases a.len() + b.len(),
{
    if a.len() == 0 && b.len() == 0 {
        assert(a =~= b);
    } else if a.len() == 0 {
        lemma_escape_nonempty(b);
    } else if b.len() == 0 {
        lemma_escape_nonempty(a);
    } else {
        lemma_escape_front(a);
        lemma_escape_front(b);
        let ra = escape_spec(a.drop_first());
        let rb = escape_spec(b.drop_first());
        lemma_escape_char_prefix(a[0], b[0], ra, rb);
        let p = escape_char(a[0]);
        assert((p + ra).skip(p.len() as int) =~= ra);
        assert((p + rb).skip(p.len() as int) =~= rb);
        lemma_escape_is_injective(a.drop_first(), b.drop_first());
        assert(a =~= seq![a[0]] + a.drop_first());
        assert(b =~= seq![b[0]] + b.drop_first());
    }
}

} // verus!
