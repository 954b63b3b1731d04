//! Command-line options: their grammar, their cross-checks, and the probe
//! configuration they produce.
use vstd::prelude::*;
use crate::common::{Config, COMM_LEN};
use crate::probe::traced;
use crate::text::{chars_of, find_first, lemma_find_first_at, string_from_chars};

verus! {

/// The options flowtap runs with.
pub struct Args {
    /// Emit one JSON object per line.
    pub json: bool,
    /// Only observe this process ID.
    pub pid: Option<u32>,
    /// Only watch processes with this name (at most 15 bytes).
    pub comm: Option<String>,
    /// Capture plaintext at OpenSSL `SSL_write`/`SSL_read`.
    pub tls_plaintext: bool,
    /// Allow plaintext capture from every process using the selected libssl.
    pub all_processes: bool,
    /// Path of the libssl shared object used by the target process.
    pub libssl_path: Option<String>,
    /// Bytes captured from each TLS buffer, in `1..=4096`.
    pub max_payload_bytes: u32,
    /// Mask common HTTP credential and cookie header values.
    pub redact: bool,
}

/// The content of an `Args`.
pub struct ArgsView {
    pub json: bool,
    pub pid: Option<u32>,
    pub comm: Option<Seq<char>>,
    pub tls_plaintext: bool,
    pub all_processes: bool,
    pub libssl_path: Option<Seq<char>>,
    pub max_payload_bytes: u32,
    pub redact: bool,
}

pub open spec fn opt_str_view(o: Option<String>) -> Option<Seq<char>> {
    match o {
        Some(s) => Some(s@),
        None => None,
    }
}

impl View for Args {
    type V = ArgsView;

    open spec fn view(&self) -> ArgsView {
        ArgsView {
            json: self.json,
            pid: self.pid,
            comm: opt_str_view(self.comm),
            tls_plaintext: self.tls_plaintext,
            all_processes: self.all_processes,
            libssl_path: opt_str_view(self.libssl_path),
            max_payload_bytes: self.max_payload_bytes,
            redact: self.redact,
        }
    }
}

/// Why a set of options cannot be run.
#[derive(Clone, Copy, Debug, PartialEq, Eq, Structural)]
pub enum ArgsError {
    /// TLS capture without `--pid`, `--comm` or `--all-processes`.
    UnscopedTls,
    /// TLS capture without `--libssl-path`.
    MissingLibsslPath,
    /// `--libssl-path` does not name a regular file.
    LibsslNotAFile,
    EmptyComm,
    /// `--comm` of 16 bytes or more.
    CommTooLong,
    CommHasNul,
}

/// UTF-8 byte length of a text.
pub open spec fn byte_len(s: Seq<char>) -> nat {
    vstd::utf8::encode_utf8(s).len()
}

/// The first problem with `args`, checked in the order flowtap reports them;
/// `libssl_is_file` tells whether the libssl path names a regular file.
pub open spec fn validation_result(args: ArgsView, libssl_is_file: bool) -> Result<(), ArgsError> {
    if args.tls_plaintext && args.pid is None && args.comm is None && !args.all_processes {
        Err(ArgsError::UnscopedTls)
    } else if args.tls_plaintext && args.libssl_path is None {
        Err(ArgsError::MissingLibsslPath)
    } else if args.tls_plaintext && !libssl_is_file {
        Err(ArgsError::LibsslNotAFile)
    } else {
        match args.comm {
            Some(c) => if c.len() == 0 {
                Err(ArgsError::EmptyComm)
            } else if byte_len(c) >= 16 {
                Err(ArgsError::CommTooLong)
            } else if vstd::utf8::encode_utf8(c).contains(0u8) {
                Err(ArgsError::CommHasNul)
            } else {
                Ok(())
            },
            None => Ok(()),
        }
    }
}

/// Checks the options that the grammar alone does not rule out.
/// `libssl_is_file` is whether `args.libssl_path` names a regular file.
#[verifier::loop_isolation(false)]
pub fn validate_args(args: &Args, libssl_is_file: bool) -> (r: Result<(), ArgsError>)
    ensures
        r == validation_result(args@, libssl_is_file),
{
    if args.tls_plaintext {
        if args.pid.is_none() && args.comm.is_none() && !args.all_processes {
            return Err(ArgsError::UnscopedTls);
        }
        if args.libssl_path.is_none() {
            return Err(ArgsError::MissingLibsslPath);
        }
        if !libssl_is_file {
            return Err(ArgsError::LibsslNotAFile);
        }
    }
    match &args.comm {
        Some(comm) => {
            if comm.as_str().is_empty() {
                return Err(ArgsError::EmptyComm);
            }
            if comm.as_str().as_bytes().len() >= COMM_LEN {
                return Err(ArgsError::CommTooLong);
            }
            let bytes = comm.as_str().as_bytes();
            let n = bytes.len();
            let mut i: usize = 0;
            while i < n
                invariant
                    i <= n,
                    n == bytes@.len(),
                    bytes@ == vstd::utf8::encode_utf8(comm@),
                    forall|j: int| 0 <= j < i ==> bytes@[j] != 0u8,
                decreases n - i,
            {
                if bytes[i] == 0 {
                    assert(bytes@.contains(0u8)) by {
                        assert(bytes@[i as int] == 0u8);
                    }
                    return Err(ArgsError::CommHasNul);
                }
                i = i + 1;
            }
            Ok(())
        },
        None => Ok(()),
    }
}

impl ArgsError {
    pub open spec fn message_spec(self) -> Seq<char> {
        match self {
            ArgsError::UnscopedTls => "--tls-plaintext requires --pid <PID> or --comm <NAME>; pass --all-processes only for intentional system-wide plaintext capture"@,
            ArgsError::MissingLibsslPath => "--tls-plaintext requires --libssl-path <PATH>"@,
            ArgsError::LibsslNotAFile => "libssl path is not a regular file"@,
            ArgsError::EmptyComm => "--comm must not be empty"@,
            ArgsError::CommTooLong => "--comm must be at most 15 bytes"@,
            ArgsError::CommHasNul => "--comm must not contain a NUL byte"@,
        }
    }

    /// The sentence flowtap prints for this error.
    pub fn message(self) -> (r: &'static str)
        ensures
            r@ == self.message_spec(),
    {
        match self {
            ArgsError::UnscopedTls => "--tls-plaintext requires --pid <PID> or --comm <NAME>; pass --all-processes only for intentional system-wide plaintext capture",
            ArgsError::MissingLibsslPath => "--tls-plaintext requires --libssl-path <PATH>",
            ArgsError::LibsslNotAFile => "libssl path is not a regular file",
            ArgsError::EmptyComm => "--comm must not be empty",
            ArgsError::CommTooLong => "--comm must be at most 15 bytes",
            ArgsError::CommHasNul => "--comm must not contain a NUL byte",
        }
    }
}

/// Whether flowtap warns that it captures plaintext from every process.
pub fn warns_about_unscoped_tls(args: &Args) -> (r: bool)
    ensures
        r == (args.tls_plaintext && args.all_processes),
{
    args.tls_plaintext && args.all_processes
}

/// The libssl that gets the `SSL_write`/`SSL_read` probes: the one named by
/// `--libssl-path`, and only under `--tls-plaintext`; without that flag no TLS
/// probe is attached.
pub fn tls_probe_library(args: &Args) -> (r: Option<&String>)
    ensures
        r is Some <==> args.tls_plaintext && args.libssl_path is Some,
        r matches Some(path) ==> args.libssl_path == Some(*path),
{
    if args.tls_plaintext {
        args.libssl_path.as_ref()
    } else {
        None
    }
}

/// The probe configuration for `args`: the payload limit, the PID filter
/// (0 when off) and the NUL-padded command-name filter.
pub open spec fn config_for(args: ArgsView, c: Config) -> bool {
    &&& c.max_payload_bytes == args.max_payload_bytes
    &&& c.target_pid == (match args.pid {
        Some(p) => p,
        None => 0,
    })
    &&& c._padding@ == seq![0u8, 0u8, 0u8]
    &&& match args.comm {
        Some(name) => {
            let bytes = vstd::utf8::encode_utf8(name);
            &&& c.filter_comm_enabled == 1
            &&& forall|i: int| 0 <= i < 16 ==> #[trigger] c.filter_comm[i] == (if i < bytes.len() {
                bytes[i]
            } else {
                0u8
            })
        },
        None => {
            &&& c.filter_comm_enabled == 0
            &&& forall|i: int| 0 <= i < 16 ==> #[trigger] c.filter_comm[i] == 0u8
        },
    }
}

/// Builds the probe configuration; the command name must fit the 16-byte field.
pub fn config_from_args(args: &Args) -> (c: Config)
    requires
        match args@.comm {
            Some(name) => byte_len(name) <= 16,
            None => true,
        },
    ensures
        config_for(args@, c),
{
    let mut config = Config::empty();
    config.max_payload_bytes = args.max_payload_bytes;
    config.target_pid = match args.pid {
        Some(p) => p,
        None => 0,
    };
    assert(config._padding@ =~= seq![0u8, 0u8, 0u8]);
    match &args.comm {
        Some(comm) => {
            let bytes = comm.as_str().as_bytes();
            let n = bytes.len();
            let mut i: usize = 0;
            while i < n
                invariant
                    i <= n,
                    n == bytes@.len(),
                    n <= 16,
                    forall|j: int| 0 <= j < i ==> #[trigger] config.filter_comm[j] == bytes@[j],
                    forall|j: int| i <= j < 16 ==> #[trigger] config.filter_comm[j] == 0u8,
                    config.max_payload_bytes == args.max_payload_bytes,
                    config._padding@ == seq![0u8, 0u8, 0u8],
                    config.target_pid == (match args.pid {
                        Some(p) => p,
                        None => 0,
                    }),
                    config.filter_comm_enabled == 0,
                decreases n - i,
            {
                config.filter_comm[i] = bytes[i];
                i = i + 1;
            }
            config.filter_comm_enabled = 1;
        },
        None => {},
    }
    config
}

/// The long options flowtap understands.
#[derive(Clone, Copy, Debug, PartialEq, Eq, Structural)]
pub enum OptionName {
    Json,
    Pid,
    Comm,
    TlsPlaintext,
    AllProcesses,
    LibsslPath,
    MaxPayloadBytes,
    Redact,
}

/// Why a command line was not accepted, or a request for help or the version.
#[derive(Clone, Copy, Debug, PartialEq, Eq, Structural)]
pub enum CliError {
    /// `-h` or `--help`.
    HelpRequested,
    /// `-V` or `--version`.
    VersionRequested,
    /// The argument at this index of `argv` is not an option of flowtap.
    UnknownArgument(usize),
    /// A flag was given a value with `=`.
    UnexpectedValue(OptionName),
    /// An option that takes a value was not followed by one.
    MissingValue(OptionName),
    /// The value is empty, not a number, or out of range.
    InvalidValue(OptionName),
    /// The option was given more than once.
    Repeated(OptionName),
    /// The two options cannot be used together.
    Conflict(OptionName, OptionName),
    /// The option needs `--tls-plaintext`.
    MissingRequirement(OptionName),
}

/// The spelling of an option after its leading `--`.
pub open spec fn long_name(o: OptionName) -> Seq<char> {
    match o {
        OptionName::Json => seq!['j', 's', 'o', 'n'],
        OptionName::Pid => seq!['p', 'i', 'd'],
        OptionName::Comm => seq!['c', 'o', 'm', 'm'],
        OptionName::TlsPlaintext => seq![
            't', 'l', 's', '-', 'p', 'l', 'a', 'i', 'n', 't', 'e', 'x', 't',
        ],
        OptionName::AllProcesses => seq![
            'a', 'l', 'l', '-', 'p', 'r', 'o', 'c', 'e', 's', 's', 'e', 's',
        ],
        OptionName::LibsslPath => seq!['l', 'i', 'b', 's', 's', 'l', '-', 'p', 'a', 't', 'h'],
        OptionName::MaxPayloadBytes => seq![
            'm', 'a', 'x', '-', 'p', 'a', 'y', 'l', 'o', 'a', 'd', '-', 'b', 'y', 't', 'e', 's',
        ],
        OptionName::Redact => seq!['r', 'e', 'd', 'a', 'c', 't'],
    }
}

pub open spec fn option_named(name: Seq<char>) -> Option<OptionName> {
    if name == long_name(OptionName::Json) {
        Some(OptionName::Json)
    } else if name == long_name(OptionName::Pid) {
        Some(OptionName::Pid)
    } else if name == long_name(OptionName::Comm) {
        Some(OptionName::Comm)
    } else if name == long_name(OptionName::TlsPlaintext) {
        Some(OptionName::TlsPlaintext)
    } else if name == long_name(OptionName::AllProcesses) {
        Some(OptionName::AllProcesses)
    } else if name == long_name(OptionName::LibsslPath) {
        Some(OptionName::LibsslPath)
    } else if name == long_name(OptionName::MaxPayloadBytes) {
        Some(OptionName::MaxPayloadBytes)
    } else if name == long_name(OptionName::Redact) {
        Some(OptionName::Redact)
    } else {
        None
    }
}

/// Options that are switches rather than taking a value.
pub open spec fn is_flag(o: OptionName) -> bool {
    o is Json || o is TlsPlaintext || o is AllProcesses || o is Redact
}

/// What the command line has set so far.
pub struct ParseState {
    pub json: bool,
    pub pid: Option<u32>,
    pub comm: Option<Seq<char>>,
    pub tls_plaintext: bool,
    pub all_processes: bool,
    pub libssl_path: Option<Seq<char>>,
    pub max_payload_bytes: Option<u32>,
    pub redact: bool,
}

pub open spec fn initial_state() -> ParseState {
    ParseState {
        json: false,
        pid: None,
        comm: None,
        tls_plaintext: false,
        all_processes: false,
        libssl_path: None,
        max_payload_bytes: None,
        redact: false,
    }
}

pub open spec fn is_set(st: ParseState, o: OptionName) -> bool {
    match o {
        OptionName::Json => st.json,
        OptionName::Pid => st.pid is Some,
        OptionName::Comm => st.comm is Some,
        OptionName::TlsPlaintext => st.tls_plaintext,
        OptionName::AllProcesses => st.all_processes,
        OptionName::LibsslPath => st.libssl_path is Some,
        OptionName::MaxPayloadBytes => st.max_payload_bytes is Some,
        OptionName::Redact => st.redact,
    }
}

pub open spec fn set_flag(st: ParseState, o: OptionName) -> ParseState {
    match o {
        OptionName::Json => ParseState { json: true, ..st },
        OptionName::TlsPlaintext => ParseState { tls_plaintext: true, ..st },
        OptionName::AllProcesses => ParseState { all_processes: true, ..st },
        _ => ParseState { redact: true, ..st },
    }
}

pub open spec fn is_digit(c: char) -> bool {
    '0' <= c && c <= '9'
}

pub open spec fn digits_value(d: Seq<char>) -> nat
    decreases d.len(),
{
    if d.len() == 0 {
        0
    } else {
        digits_value(d.drop_last()) * 10 + ((d.last() as u32) - 0x30) as nat
    }
}

/// The digits flowtap prints for a number are decimal digits, and read back
/// as a number they give that number.
pub proof fn lemma_decimal_digits_read_back(n: nat)
    ensures
        all_digits(crate::text::decimal_digits(n)),
        digits_value(crate::text::decimal_digits(n)) == n,
    decreases n,
{
    let d = crate::text::decimal_digits(n);
    let last = crate::text::decimal_digit(n % 10);
    assert(last as u32 == n % 10 + 0x30);
    assert(((last as u32) - 0x30) as nat == n % 10);
    assert(d.len() > 0);
    assert(digits_value(d) == digits_value(d.drop_last()) * 10 + ((d.last() as u32) - 0x30) as nat);
    if n >= 10 {
        lemma_decimal_digits_read_back(n / 10);
        let p = crate::text::decimal_digits(n / 10);
        assert(d.drop_last() =~= p);
        assert(d.last() == last);
        assert((n / 10) * 10 + n % 10 == n) by (nonlinear_arith);
        assert forall|i: int| 0 <= i < d.len() implies is_digit(#[trigger] d[i]) by {
            if i < p.len() {
                assert(d[i] == p[i]);
            }
        }
    } else {
        assert(d.drop_last() =~= Seq::<char>::empty());
        assert(d[0] == last);
        assert(n % 10 == n);
    }
}

/// `v` without one leading `+`.
pub open spec fn unsigned_part(v: Seq<char>) -> Seq<char> {
    if v.len() > 0 && v[0] == '+' {
        v.skip(1)
    } else {
        v
    }
}

pub open spec fn all_digits(d: Seq<char>) -> bool {
    forall|i: int| 0 <= i < d.len() ==> is_digit(#[trigger] d[i])
}

/// A decimal number with an optional leading `+`, as accepted for numeric options.
pub open spec fn number_text(v: Seq<char>) -> Option<nat> {
    let d = unsigned_part(v);
    if d.len() > 0 && all_digits(d) {
        Some(digits_value(d))
    } else {
        None
    }
}

/// The number written in `v` when it lies in `1..=max`.
pub open spec fn number_in_range(v: Seq<char>, max: u32) -> Option<u32> {
    match number_text(v) {
        Some(n) => if 1 <= n <= max {
            Some(n as u32)
        } else {
            None
        },
        None => None,
    }
}

/// `st` with option `o` set to the text `v`.
pub open spec fn with_value(st: ParseState, o: OptionName, v: Seq<char>) -> Result<ParseState, CliError> {
    match o {
        OptionName::Pid => match number_in_range(v, 0xffff_ffff) {
            Some(n) => Ok(ParseState { pid: Some(n), ..st }),
            None => Err(CliError::InvalidValue(o)),
        },
        OptionName::MaxPayloadBytes => match number_in_range(v, 4096) {
            Some(n) => Ok(ParseState { max_payload_bytes: Some(n), ..st }),
            None => Err(CliError::InvalidValue(o)),
        },
        OptionName::Comm => Ok(ParseState { comm: Some(v), ..st }),
        _ => if v.len() == 0 {
            Err(CliError::InvalidValue(o))
        } else {
            Ok(ParseState { libssl_path: Some(v), ..st })
        },
    }
}

/// A token that cannot be the value of an option because it looks like one.
pub open spec fn looks_like_option(t: Seq<char>) -> bool {
    t.len() > 1 && t[0] == '-'
}

/// A cluster of short flags (`-x...`), read from its first flag on.
pub open spec fn is_short_cluster(t: Seq<char>) -> bool {
    t.len() >= 2 && t[0] == '-' && t[1] != '-'
}

/// `--help`, or a short cluster whose first flag is `h` (as in `-h` or `-hV`).
pub open spec fn is_help(t: Seq<char>) -> bool {
    t == seq!['-', '-', 'h', 'e', 'l', 'p'] || (is_short_cluster(t) && t[1] == 'h')
}

/// `--version`, or a short cluster whose first flag is `V` (as in `-V` or `-Vh`).
pub open spec fn is_version(t: Seq<char>) -> bool {
    t == seq!['-', '-', 'v', 'e', 'r', 's', 'i', 'o', 'n'] || (is_short_cluster(t) && t[1] == 'V')
}

/// Where the name of the long option `t` ends: at its `=` or at its end.
pub open spec fn name_end(t: Seq<char>) -> int {
    match find_first(t.skip(2), '=') {
        Some(k) => k + 2,
        None => t.len() as int,
    }
}

/// The arguments from index `i` on, read into the state `st`.
pub open spec fn parse_tokens(argv: Seq<Seq<char>>, i: int, st: ParseState) -> Result<ParseState, CliError>
    decreases argv.len() - i,
{
    if i < 0 || i >= argv.len() {
        Ok(st)
    } else {
        let t = argv[i];
        if is_help(t) {
            Err(CliError::HelpRequested)
        } else if is_version(t) {
            Err(CliError::VersionRequested)
        } else if t == seq!['-', '-'] {
            if i + 1 < argv.len() {
                Err(CliError::UnknownArgument((i + 1) as usize))
            } else {
                Ok(st)
            }
        } else if t.len() > 2 && t[0] == '-' && t[1] == '-' {
            let e = name_end(t);
            match option_named(t.subrange(2, e)) {
                None => Err(CliError::UnknownArgument(i as usize)),
                Some(o) => if is_set(st, o) {
                    Err(CliError::Repeated(o))
                } else if is_flag(o) {
                    if e < t.len() {
                        Err(CliError::UnexpectedValue(o))
                    } else {
                        parse_tokens(argv, i + 1, set_flag(st, o))
                    }
                } else if e < t.len() {
                    match with_value(st, o, t.subrange(e + 1, t.len() as int)) {
                        Ok(next) => parse_tokens(argv, i + 1, next),
                        Err(err) => Err(err),
                    }
                } else if i + 1 < argv.len() && !looks_like_option(argv[i + 1]) {
                    match with_value(st, o, argv[i + 1]) {
                        Ok(next) => parse_tokens(argv, i + 2, next),
                        Err(err) => Err(err),
                    }
                } else {
                    Err(CliError::MissingValue(o))
                },
            }
        } else {
            Err(CliError::UnknownArgument(i as usize))
        }
    }
}

/// The relations between options, and the default payload limit of 128.
pub open spec fn finish(st: ParseState) -> Result<ArgsView, CliError> {
    if st.all_processes && st.pid is Some {
        Err(CliError::Conflict(OptionName::AllProcesses, OptionName::Pid))
    } else if st.all_processes && st.comm is Some {
        Err(CliError::Conflict(OptionName::AllProcesses, OptionName::Comm))
    } else if st.all_processes && !st.tls_plaintext {
        Err(CliError::MissingRequirement(OptionName::AllProcesses))
    } else if st.libssl_path is Some && !st.tls_plaintext {
        Err(CliError::MissingRequirement(OptionName::LibsslPath))
    } else if st.redact && !st.tls_plaintext {
        Err(CliError::MissingRequirement(OptionName::Redact))
    } else {
        Ok(
            ArgsView {
                json: st.json,
                pid: st.pid,
                comm: st.comm,
                tls_plaintext: st.tls_plaintext,
                all_processes: st.all_processes,
                libssl_path: st.libssl_path,
                max_payload_bytes: match st.max_payload_bytes {
                    Some(m) => m,
                    None => 128,
                },
                redact: st.redact,
            },
        )
    }
}

/// The outcome of reading `argv`, whose first element is the program name.
pub open spec fn parse_spec(argv: Seq<Seq<char>>) -> Result<ArgsView, CliError> {
    match parse_tokens(argv, 1, initial_state()) {
        Ok(st) => finish(st),
        Err(e) => Err(e),
    }
}

/// The arguments as texts.
pub open spec fn argv_view(argv: Seq<&str>) -> Seq<Seq<char>> {
    argv.map_values(|t: &str| t@)
}

/// Options read so far, as exec values.
struct Parsed {
    json: bool,
    pid: Option<u32>,
    comm: Option<Vec<char>>,
    tls_plaintext: bool,
    all_processes: bool,
    libssl_path: Option<Vec<char>>,
    max_payload_bytes: Option<u32>,
    redact: bool,
}

spec fn opt_vec_view(o: Option<Vec<char>>) -> Option<Seq<char>> {
    match o {
        Some(v) => Some(v@),
        None => None,
    }
}

spec fn state_of(p: Parsed) -> ParseState {
    ParseState {
        json: p.json,
        pid: p.pid,
        comm: opt_vec_view(p.comm),
        tls_plaintext: p.tls_plaintext,
        all_processes: p.all_processes,
        libssl_path: opt_vec_view(p.libssl_path),
        max_payload_bytes: p.max_payload_bytes,
        redact: p.redact,
    }
}

/// Whether `v[lo..hi]` is `word`.
fn range_is(v: &Vec<char>, lo: usize, hi: usize, word: &[char]) -> (r: bool)
    requires
        lo <= hi <= v@.len(),
    ensures
        r == (v@.subrange(lo as int, hi as int) == word@),
{
    if hi - lo != word.len() {
        return false;
    }
    let n = word.len();
    let mut i: usize = 0;
    while i < n
        invariant
            i <= n,
            n == word@.len(),
            hi - lo == n,
            lo <= hi <= v@.len(),
            forall|j: int| 0 <= j < i ==> v@[lo + j] == word@[j],
        decreases n - i,
    {
        if v[lo + i] != word[i] {
            assert(v@.subrange(lo as int, hi as int)[i as int] != word@[i as int]);
            return false;
        }
        i = i + 1;
    }
    assert(v@.subrange(lo as int, hi as int) =~= word@);
    true
}

fn lookup_option(v: &Vec<char>, lo: usize, hi: usize) -> (r: Option<OptionName>)
    requires
        lo <= hi <= v@.len(),
    ensures
        r == option_named(v@.subrange(lo as int, hi as int)),
{
    let json: [char; 4] = ['j', 's', 'o', 'n'];
    let pid: [char; 3] = ['p', 'i', 'd'];
    let comm: [char; 4] = ['c', 'o', 'm', 'm'];
    let tls: [char; 13] = ['t', 'l', 's', '-', 'p', 'l', 'a', 'i', 'n', 't', 'e', 'x', 't'];
    let all: [char; 13] = ['a', 'l', 'l', '-', 'p', 'r', 'o', 'c', 'e', 's', 's', 'e', 's'];
    let libssl: [char; 11] = ['l', 'i', 'b', 's', 's', 'l', '-', 'p', 'a', 't', 'h'];
    let max: [char; 17] = [
        'm', 'a', 'x', '-', 'p', 'a', 'y', 'l', 'o', 'a', 'd', '-', 'b', 'y', 't', 'e', 's',
    ];
    let redact: [char; 6] = ['r', 'e', 'd', 'a', 'c', 't'];
    assert(json@ =~= long_name(OptionName::Json));
    assert(pid@ =~= long_name(OptionName::Pid));
    assert(comm@ =~= long_name(OptionName::Comm));
    assert(tls@ =~= long_name(OptionName::TlsPlaintext));
    assert(all@ =~= long_name(OptionName::AllProcesses));
    assert(libssl@ =~= long_name(OptionName::LibsslPath));
    assert(max@ =~= long_name(OptionName::MaxPayloadBytes));
    assert(redact@ =~= long_name(OptionName::Redact));
    if range_is(v, lo, hi, json.as_slice()) {
        Some(OptionName::Json)
    } else if range_is(v, lo, hi, pid.as_slice()) {
        Some(OptionName::Pid)
    } else if range_is(v, lo, hi, comm.as_slice()) {
        Some(OptionName::Comm)
    } else if range_is(v, lo, hi, tls.as_slice()) {
        Some(OptionName::TlsPlaintext)
    } else if range_is(v, lo, hi, all.as_slice()) {
        Some(OptionName::AllProcesses)
    } else if range_is(v, lo, hi, libssl.as_slice()) {
        Some(OptionName::LibsslPath)
    } else if range_is(v, lo, hi, max.as_slice()) {
        Some(OptionName::MaxPayloadBytes)
    } else if range_is(v, lo, hi, redact.as_slice()) {
        Some(OptionName::Redact)
    } else {
        None
    }
}

proof fn lemma_saturating_step(x: nat, d: nat, cap: nat)
    requires
        cap > 0,
    ensures
        (if (if x < cap { x } else { cap }) * 10 + d < cap {
            (if x < cap { x } else { cap }) * 10 + d
        } else {
            cap
        }) == (if x * 10 + d < cap {
            x * 10 + d
        } else {
            cap
        }),
{
    if x >= cap {
        assert(x * 10 + d >= cap) by (nonlinear_arith)
            requires
                x >= cap,
        ;
        assert(cap * 10 + d >= cap) by (nonlinear_arith)
            requires
                cap > 0,
        ;
    }
}

/// The number written in `v[lo..hi]` when it lies in `1..=max`.
#[verifier::loop_isolation(false)]
fn parse_number(v: &Vec<char>, lo: usize, hi: usize, max: u32) -> (r: Option<u32>)
    requires
        lo <= hi <= v@.len(),
    ensures
        r == number_in_range(v@.subrange(lo as int, hi as int), max),
{
    let ghost t = v@.subrange(lo as int, hi as int);
    let start = if lo < hi && v[lo] == '+' {
        lo + 1
    } else {
        lo
    };
    let ghost d = v@.subrange(start as int, hi as int);
    assert(d =~= unsigned_part(t));
    if start == hi {
        return None;
    }
    let cap: u64 = max as u64 + 1;
    let mut acc: u64 = 0;
    let mut k = start;
    while k < hi
        invariant
            start <= k <= hi,
            hi <= v@.len(),
            d == v@.subrange(start as int, hi as int),
            cap == max + 1,
            forall|j: int| 0 <= j < k - start ==> is_digit(#[trigger] d[j]),
            acc == (if digits_value(d.take(k - start)) < cap {
                digits_value(d.take(k - start))
            } else {
                cap as nat
            }),
        decreases hi - k,
    {
        let c = v[k];
        assert(d[k - start] == v@[k as int]);
        if !('0' <= c && c <= '9') {
            assert(!is_digit(d[k - start]));
            return None;
        }
        let digit = (c as u32 - 0x30) as u64;
        proof {
            let before = d.take(k - start);
            let after = d.take(k - start + 1);
            assert(after.drop_last() =~= before);
            assert(after.last() == c);
            assert(digits_value(after) == digits_value(before) * 10 + digit);
            lemma_saturating_step(digits_value(before), digit as nat, cap as nat);
        }
        let next = acc * 10 + digit;
        acc = if next < cap {
            next
        } else {
            cap
        };
        k = k + 1;
    }
    assert(d.take(hi - start) =~= d);
    if 1 <= acc && acc <= max as u64 {
        Some(acc as u32)
    } else {
        None
    }
}

fn copy_range(v: &Vec<char>, lo: usize, hi: usize) -> (r: Vec<char>)
    requires
        lo <= hi <= v@.len(),
    ensures
        r@ == v@.subrange(lo as int, hi as int),
{
    let mut r: Vec<char> = Vec::new();
    crate::text::push_range(&mut r, v, lo, hi);
    assert(r@ =~= v@.subrange(lo as int, hi as int));
    r
}

fn is_set_exec(st: &Parsed, o: OptionName) -> (r: bool)
    ensures
        r == is_set(state_of(*st), o),
{
    match o {
        OptionName::Json => st.json,
        OptionName::Pid => st.pid.is_some(),
        OptionName::Comm => st.comm.is_some(),
        OptionName::TlsPlaintext => st.tls_plaintext,
        OptionName::AllProcesses => st.all_processes,
        OptionName::LibsslPath => st.libssl_path.is_some(),
        OptionName::MaxPayloadBytes => st.max_payload_bytes.is_some(),
        OptionName::Redact => st.redact,
    }
}

fn set_flag_exec(st: &mut Parsed, o: OptionName)
    requires
        is_flag(o),
    ensures
        state_of(*final(st)) == set_flag(state_of(*old(st)), o),
{
    match o {
        OptionName::Json => st.json = true,
        OptionName::TlsPlaintext => st.tls_plaintext = true,
        OptionName::AllProcesses => st.all_processes = true,
        _ => st.redact = true,
    }
}

/// Sets option `o` to the text `v[lo..hi]`.
fn apply_value(st: &mut Parsed, o: OptionName, v: &Vec<char>, lo: usize, hi: usize) -> (r: Result<
    (),
    CliError,
>)
    requires
        lo <= hi <= v@.len(),
        !is_flag(o),
    ensures
        match with_value(state_of(*old(st)), o, v@.subrange(lo as int, hi as int)) {
            Ok(next) => r is Ok && state_of(*final(st)) == next,
            Err(e) => r == Err::<(), CliError>(e),
        },
{
    match o {
        OptionName::Pid => match parse_number(v, lo, hi, 0xffff_ffff) {
            Some(n) => {
                st.pid = Some(n);
                Ok(())
            },
            None => Err(CliError::InvalidValue(o)),
        },
        OptionName::MaxPayloadBytes => match parse_number(v, lo, hi, 4096) {
            Some(n) => {
                st.max_payload_bytes = Some(n);
                Ok(())
            },
            None => Err(CliError::InvalidValue(o)),
        },
        OptionName::Comm => {
            st.comm = Some(copy_range(v, lo, hi));
            Ok(())
        },
        _ => {
            if lo == hi {
                Err(CliError::InvalidValue(o))
            } else {
                st.libssl_path = Some(copy_range(v, lo, hi));
                Ok(())
            }
        },
    }
}

fn finish_exec(st: Parsed) -> (r: Result<Args, CliError>)
    ensures
        match finish(state_of(st)) {
            Ok(a) => r is Ok && r->Ok_0@ == a,
            Err(e) => r == Err::<Args, CliError>(e),
        },
{
    if st.all_processes && st.pid.is_some() {
        return Err(CliError::Conflict(OptionName::AllProcesses, OptionName::Pid));
    }
    if st.all_processes && st.comm.is_some() {
        return Err(CliError::Conflict(OptionName::AllProcesses, OptionName::Comm));
    }
    if st.all_processes && !st.tls_plaintext {
        return Err(CliError::MissingRequirement(OptionName::AllProcesses));
    }
    if st.libssl_path.is_some() && !st.tls_plaintext {
        return Err(CliError::MissingRequirement(OptionName::LibsslPath));
    }
    if st.redact && !st.tls_plaintext {
        return Err(CliError::MissingRequirement(OptionName::Redact));
    }
    let comm = match &st.comm {
        Some(c) => Some(string_from_chars(c)),
        None => None,
    };
    let libssl_path = match &st.libssl_path {
        Some(p) => Some(string_from_chars(p)),
        None => None,
    };
    let max_payload_bytes = match st.max_payload_bytes {
        Some(m) => m,
        None => 128,
    };
    Ok(
        Args {
            json: st.json,
            pid: st.pid,
            comm,
            tls_plaintext: st.tls_plaintext,
            all_processes: st.all_processes,
            libssl_path,
            max_payload_bytes,
            redact: st.redact,
        },
    )
}

impl Args {
    /// Reads a command line; `argv[0]` is the program name.
    pub fn try_parse_from(argv: &[&str]) -> (r: Result<Args, CliError>)
        ensures
            match parse_spec(argv_view(argv@)) {
                Ok(a) => r is Ok && r->Ok_0@ == a,
                Err(e) => r == Err::<Args, CliError>(e),
            },
    {
        let ghost av = argv_view(argv@);
        let n = argv.len();
        let mut st = Parsed {
            json: false,
            pid: None,
            comm: None,
            tls_plaintext: false,
            all_processes: false,
            libssl_path: None,
            max_payload_bytes: None,
            redact: false,
        };
        let mut i: usize = 1;
        assert(state_of(st) == initial_state());
        while i < n
            invariant
                1 <= i,
                n == argv@.len(),
                av == argv_view(argv@),
                av.len() == n,
                parse_tokens(av, 1, initial_state()) == parse_tokens(av, i as int, state_of(st)),
            decreases n - i,
        {
            let t = chars_of(argv[i]);
            assert(t@ == av[i as int]);
            let tn = t.len();
            let help: [char; 6] = ['-', '-', 'h', 'e', 'l', 'p'];
            let version: [char; 9] = ['-', '-', 'v', 'e', 'r', 's', 'i', 'o', 'n'];
            let dashes: [char; 2] = ['-', '-'];
            assert(help@ =~= seq!['-', '-', 'h', 'e', 'l', 'p']);
            assert(version@ =~= seq!['-', '-', 'v', 'e', 'r', 's', 'i', 'o', 'n']);
            assert(dashes@ =~= seq!['-', '-']);
            assert(t@.subrange(0, tn as int) =~= t@);
            let short_cluster = tn >= 2 && t[0] == '-' && t[1] != '-';
            if range_is(&t, 0, tn, help.as_slice()) || (short_cluster && t[1] == 'h') {
                return Err(CliError::HelpRequested);
            }
            if range_is(&t, 0, tn, version.as_slice()) || (short_cluster && t[1] == 'V') {
                return Err(CliError::VersionRequested);
            }
            if range_is(&t, 0, tn, dashes.as_slice()) {
                if i + 1 < n {
                    return Err(CliError::UnknownArgument(i + 1));
                }
                i = i + 1;
            } else if tn > 2 && t[0] == '-' && t[1] == '-' {
                let e = find_equals(&t);
                let o = match lookup_option(&t, 2, e) {
                    Some(o) => o,
                    None => {
                        return Err(CliError::UnknownArgument(i));
                    },
                };
                if is_set_exec(&st, o) {
                    return Err(CliError::Repeated(o));
                }
                if o == OptionName::Json || o == OptionName::TlsPlaintext || o
                    == OptionName::AllProcesses || o == OptionName::Redact {
                    if e < tn {
                        return Err(CliError::UnexpectedValue(o));
                    }
                    set_flag_exec(&mut st, o);
                    i = i + 1;
                } else if e < tn {
                    apply_value(&mut st, o, &t, e + 1, tn)?;
                    i = i + 1;
                } else {
                    if i + 1 < n {
                        let value = chars_of(argv[i + 1]);
                        assert(value@ == av[i + 1]);
                        if !(value.len() > 1 && value[0] == '-') {
                            let vn = value.len();
                            assert(value@.subrange(0, vn as int) =~= value@);
                            apply_value(&mut st, o, &value, 0, vn)?;
                            i = i + 2;
                        } else {
                            return Err(CliError::MissingValue(o));
                        }
                    } else {
                        return Err(CliError::MissingValue(o));
                    }
                }
            } else {
                return Err(CliError::UnknownArgument(i));
            }
        }
        finish_exec(st)
    }
}

/// Where the name of the long option `t` ends: at its first `=` after the
/// leading `--`, or at its end.
fn find_equals(t: &Vec<char>) -> (r: usize)
    requires
        t@.len() > 2,
    ensures
        2 <= r <= t@.len(),
        r == name_end(t@),
{
    let n = t.len();
    let mut k: usize = 2;
    while k < n && t[k] != '='
        invariant
            2 <= k <= n,
            n == t@.len(),
            forall|j: int| 2 <= j < k ==> t@[j] != '=',
        decreases n - k,
    {
        k = k + 1;
    }
    proof {
        let s = t@.skip(2);
        assert forall|j: int| 0 <= j < k - 2 implies s[j] != '=' by {
            assert(s[j] == t@[j + 2]);
        }
        if k < n {
            assert(s[k - 2] == t@[k as int]);
        }
        lemma_find_first_at(s, '=', k - 2);
    }
    k
}


/// The 16-byte command-name field that holds `name`, NUL-padded.
pub open spec fn padded_name(name: Seq<char>) -> Seq<u8> {
    let bytes = vstd::utf8::encode_utf8(name);
    Seq::new(16, |i: int| if i < bytes.len() { bytes[i] } else { 0u8 })
}

/// The probes trace a process exactly when it matches every filter given on the
/// command line: the PID when `--pid` was given, and the task name when
/// `--comm` was given (both together act as AND).
pub proof fn lemma_filters_follow_args(args: ArgsView, c: Config, tgid: u32, comm: [u8; 16])
    requires
        config_for(args, c),
        args.pid matches Some(p) ==> p >= 1,
    ensures
        traced(Some(c), tgid, Some(comm)) <==> {
            &&& (args.pid is None || args.pid == Some(tgid))
            &&& (args.comm matches Some(name) ==> comm@ == padded_name(name))
        },
{
    if let Some(name) = args.comm {
        if comm@ == padded_name(name) {
            assert(comm@ =~= c.filter_comm@);
        }
        if comm@ == c.filter_comm@ {
            assert(comm@ =~= padded_name(name));
        }
    } else {
        assert(c.filter_comm_enabled == 0);
    }
}

/// Whatever the command line, accepted options respect the relations between
/// them: `--all-processes`, `--libssl-path` and `--redact` come only with
/// `--tls-plaintext`, `--all-processes` never with `--pid` or `--comm`, a PID
/// is positive and the payload limit lies in `1..=4096`.
pub proof fn lemma_accepted_options_are_consistent(argv: Seq<Seq<char>>)
    ensures
        parse_spec(argv) matches Ok(a) ==> {
            &&& a.all_processes ==> a.tls_plaintext && a.pid is None && a.comm is None
            &&& a.libssl_path is Some ==> a.tls_plaintext
            &&& a.redact ==> a.tls_plaintext
            &&& 1 <= a.max_payload_bytes <= 4096
            &&& (a.pid matches Some(p) ==> p >= 1)
            &&& (a.libssl_path matches Some(path) ==> path.len() > 0)
        },
{
    lemma_parse_tokens_keeps_ranges(argv, 1, initial_state());
}

/// The token that turns plaintext capture on.
pub open spec fn tls_plaintext_token() -> Seq<char> {
    seq!['-', '-'] + long_name(OptionName::TlsPlaintext)
}

/// Plaintext capture is off by default: a command line is read as asking for
/// it only when one of its arguments is `--tls-plaintext` itself.
pub proof fn lemma_tls_capture_needs_its_flag(argv: Seq<Seq<char>>)
    ensures
        parse_spec(argv) matches Ok(a) && a.tls_plaintext ==> exists|j: int|
            1 <= j < argv.len() && #[trigger] argv[j] == tls_plaintext_token(),
{
    lemma_parse_tokens_sets_tls_from_flag(argv, 1, initial_state());
}

proof fn lemma_parse_tokens_sets_tls_from_flag(argv: Seq<Seq<char>>, i: int, st: ParseState)
    requires
        !st.tls_plaintext,
    ensures
        parse_tokens(argv, i, st) matches Ok(end) && end.tls_plaintext ==> exists|j: int|
            i <= j < argv.len() && #[trigger] argv[j] == tls_plaintext_token(),
    decreases argv.len() - i,
{
    if 0 <= i < argv.len() {
        let t = argv[i];
        if !is_help(t) && !is_version(t) && t != seq!['-', '-'] && t.len() > 2 && t[0] == '-'
            && t[1] == '-' {
            let e = name_end(t);
            crate::text::lemma_find_first(t.skip(2), '=');
            if let Some(o) = option_named(t.subrange(2, e)) {
                if !is_set(st, o) {
                    if is_flag(o) {
                        if e >= t.len() {
                            if o == OptionName::TlsPlaintext {
                                assert(t =~= tls_plaintext_token());
                            } else {
                                lemma_parse_tokens_sets_tls_from_flag(argv, i + 1, set_flag(st, o));
                            }
                        }
                    } else if e < t.len() {
                        if let Ok(next) = with_value(st, o, t.subrange(e + 1, t.len() as int)) {
                            lemma_parse_tokens_sets_tls_from_flag(argv, i + 1, next);
                        }
                    } else if i + 1 < argv.len() {
                        if let Ok(next) = with_value(st, o, argv[i + 1]) {
                            lemma_parse_tokens_sets_tls_from_flag(argv, i + 2, next);
                        }
                    }
                }
            }
        }
    }
}

/// Whatever follows, a command line whose first argument is `--help` or `-h`
/// asks for the help text, and one whose first argument is `--version` or `-V`
/// asks for the version.
pub proof fn lemma_first_help_or_version_wins(argv: Seq<Seq<char>>)
    requires
        argv.len() >= 2,
    ensures
        argv[1] == seq!['-', '-', 'h', 'e', 'l', 'p'] || argv[1] == seq!['-', 'h']
            ==> parse_spec(argv) == Err::<ArgsView, CliError>(CliError::HelpRequested),
        argv[1] == seq!['-', '-', 'v', 'e', 'r', 's', 'i', 'o', 'n'] || argv[1] == seq!['-', 'V']
            ==> parse_spec(argv) == Err::<ArgsView, CliError>(CliError::VersionRequested),
{
    let t = argv[1];
    if t == seq!['-', '-', 'v', 'e', 'r', 's', 'i', 'o', 'n'] {
        assert(t[1] == '-');
        assert(t != seq!['-', '-', 'h', 'e', 'l', 'p']);
    }
    if t == seq!['-', 'V'] {
        assert(t.len() == 2);
        assert(t != seq!['-', '-', 'h', 'e', 'l', 'p']);
    }
    if t == seq!['-', 'h'] {
        assert(t.len() == 2);
    }
}

/// The payload limit of the probes is the one the options carry, and the PID
/// filter is the PID option (0 without one), whatever `--pid` and `--comm` are.
pub proof fn lemma_config_takes_limit_and_pid(args: ArgsView, c: Config)
    requires
        config_for(args, c),
    ensures
        c.max_payload_bytes == args.max_payload_bytes,
        args.pid matches Some(p) ==> c.target_pid == p,
        args.pid is None ==> c.target_pid == 0,
        args.comm is None ==> c.filter_comm_enabled == 0,
        args.comm is Some ==> c.filter_comm_enabled == 1,
{
}

/// Values the grammar stores stay in their ranges.
pub open spec fn state_in_range(st: ParseState) -> bool {
    &&& (st.pid matches Some(p) ==> p >= 1)
    &&& (st.max_payload_bytes matches Some(m) ==> 1 <= m <= 4096)
    &&& (st.libssl_path matches Some(path) ==> path.len() > 0)
}

proof fn lemma_parse_tokens_keeps_ranges(argv: Seq<Seq<char>>, i: int, st: ParseState)
    requires
        state_in_range(st),
    ensures
        parse_tokens(argv, i, st) matches Ok(end) ==> state_in_range(end),
    decreases argv.len() - i,
{
    if 0 <= i < argv.len() {
        let t = argv[i];
        if !is_help(t) && !is_version(t) && t != seq!['-', '-'] && t.len() > 2 && t[0] == '-'
            && t[1] == '-' {
            let e = name_end(t);
            if let Some(o) = option_named(t.subrange(2, e)) {
                if !is_set(st, o) {
                    if is_flag(o) {
                        lemma_parse_tokens_keeps_ranges(argv, i + 1, set_flag(st, o));
                    } else if e < t.len() {
                        if let Ok(next) = with_value(st, o, t.subrange(e + 1, t.len() as int)) {
                            lemma_parse_tokens_keeps_ranges(argv, i + 1, next);
                        }
                    } else if i + 1 < argv.len() {
                        if let Ok(next) = with_value(st, o, argv[i + 1]) {
                            lemma_parse_tokens_keeps_ranges(argv, i + 2, next);
                        }
                    }
                }
            }
        }
    }
}


/// Options that pass validation never ask for TLS plaintext without a scope
/// (`--pid`, `--comm` or an explicit `--all-processes`) and a library path, and
/// a command-name filter they carry fits the 16-byte field with its NUL.
pub proof fn lemma_valid_options_are_scoped(args: ArgsView, libssl_is_file: bool)
    requires
        validation_result(args, libssl_is_file) is Ok,
    ensures
        args.tls_plaintext ==> args.pid is Some || args.comm is Some || args.all_processes,
        args.tls_plaintext ==> args.libssl_path is Some && libssl_is_file,
        args.comm matches Some(name) ==> 0 < byte_len(name) < 16
            && !vstd::utf8::encode_utf8(name).contains(0u8),
{
    if let Some(name) = args.comm {
        assert(vstd::utf8::encode_utf8(name) == vstd::utf8::encode_scalar(name[0] as u32)
            + vstd::utf8::encode_utf8(name.drop_first()));
    }
}


/// Validation accepts exactly the options that satisfy all of its rules: TLS
/// capture has a scope and an existing regular libssl file, and a command-name
/// filter is 1 to 15 bytes long without a NUL byte.
pub proof fn lemma_validation_accepts_exactly(args: ArgsView, libssl_is_file: bool)
    ensures
        validation_result(args, libssl_is_file) is Ok <==> {
            &&& (args.tls_plaintext ==> (args.pid is Some || args.comm is Some || args.all_processes)
                && args.libssl_path is Some && libssl_is_file)
            &&& (args.comm matches Some(name) ==> 1 <= byte_len(name) <= 15
                && !vstd::utf8::encode_utf8(name).contains(0u8))
        },
{
    if let Some(name) = args.comm {
        if name.len() > 0 {
            assert(vstd::utf8::encode_utf8(name) == vstd::utf8::encode_scalar(name[0] as u32)
                + vstd::utf8::encode_utf8(name.drop_first()));
        } else {
            assert(vstd::utf8::encode_utf8(name).len() == 0);
        }
    }
}

} // verus!
