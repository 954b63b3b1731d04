//! Verified core of flowtap: the event wire format shared with the probes,
//! the probe-side capture decisions, HTTP header redaction, table escaping,
//! PID correlation of events, and the command-line grammar.

pub mod common;
pub mod text;
pub mod redact;
pub mod output;
pub mod cli;
pub mod probe;
pub mod wire;

