# flowtap (verified core)

flowtap observes process `exec`s, IPv4 TCP `connect`s and, when asked, the
plaintext that OpenSSL's `SSL_write`/`SSL_read` handle. This crate holds the
parts of it that decide what is captured and printed, proved with Verus:

- `src/common.rs` — the event record and probe configuration shared with the
  kernel probes, and the event kinds.
- `src/probe.rs` — a verified model of the probes' decisions: PID/command-name
  filtering, how many TLS bytes are captured and when a capture is marked
  truncated, and which raw hook arguments are usable. The kernel runs the
  eBPF program in `app/ebpf_probes.rs`, which restates these decisions for the
  BPF target; it is built on its own with `aya-ebpf` and `bpf-linker`, not as
  part of this crate.
- `src/wire.rs` — reading an event back from a ring-buffer record.
- `src/cli.rs` — the command-line grammar, the checks on option combinations,
  and the probe configuration built from the options.
- `src/output.rs` — PID correlation of events, TLS payload text, `/proc`
  command lines, and table rows whose text cannot carry control characters.
- `src/redact.rs` — masking of `Authorization`, `Proxy-Authorization`,
  `Cookie` and `Set-Cookie` header values.
- `src/text.rs` — character helpers, decimal and hexadecimal digits.

`app/main.rs` is the command itself: it loads the eBPF object (path in
`FLOWTAP_EBPF_OBJECT`), attaches the probes with aya (the TLS probes only under
`--tls-plaintext`), reads the ring buffer with tokio, and prints table rows or
JSON lines.
