use flowtap::cli::{
    config_from_args, tls_probe_library, validate_args, warns_about_unscoped_tls, Args, ArgsError,
    CliError, OptionName,
};
use flowtap::probe::should_trace;
use std::path::Path;

fn tls_args() -> Args {
    Args {
        json: false,
        pid: None,
        comm: None,
        tls_plaintext: true,
        all_processes: false,
        libssl_path: Some("/proc/self/exe".to_string()),
        max_payload_bytes: 128,
        redact: false,
    }
}

fn libssl_is_file(args: &Args) -> bool {
    args.libssl_path
        .as_ref()
        .map(|path| Path::new(path).is_file())
        .unwrap_or(false)
}

#[test]
fn tls_plaintext_requires_an_explicit_scope() {
    let args = tls_args();
    let error = validate_args(&args, libssl_is_file(&args)).expect_err("unscoped TLS must be rejected");
    assert!(error.message().contains("--all-processes"));
}

#[test]
fn tls_plaintext_accepts_a_pid_scope() {
    let mut args = tls_args();
    args.pid = Some(42);
    validate_args(&args, libssl_is_file(&args)).expect("PID-scoped TLS should be accepted");
}

#[test]
fn tls_plaintext_accepts_a_comm_scope() {
    let mut args = tls_args();
    args.comm = Some("curl".to_owned());
    validate_args(&args, libssl_is_file(&args)).expect("comm-scoped TLS should be accepted");
}

#[test]
fn tls_plaintext_accepts_explicit_all_processes() {
    let mut args = tls_args();
    args.all_processes = true;
    validate_args(&args, libssl_is_file(&args)).expect("explicit system-wide TLS should be accepted");
    assert!(warns_about_unscoped_tls(&args));
}

#[test]
fn all_processes_requires_tls_plaintext() {
    let result = Args::try_parse_from(&["flowtap", "--all-processes"]);
    assert!(result.is_err());
}

#[test]
fn all_processes_conflicts_with_process_filters() {
    let result = Args::try_parse_from(&[
        "flowtap",
        "--tls-plaintext",
        "--libssl-path",
        "/tmp/libssl.so",
        "--pid",
        "42",
        "--all-processes",
    ]);
    assert!(result.is_err());
}

#[test]
fn comm_checks_reject_bad_names() {
    let mut args = tls_args();
    args.tls_plaintext = false;
    args.comm = Some(String::new());
    assert_eq!(validate_args(&args, false), Err(ArgsError::EmptyComm));
    args.comm = Some("0123456789abcdef".to_string());
    assert_eq!(validate_args(&args, false), Err(ArgsError::CommTooLong));
    args.comm = Some("0123456789abcde".to_string());
    assert_eq!(validate_args(&args, false), Ok(()));
    args.comm = Some("a\0b".to_string());
    assert_eq!(validate_args(&args, false), Err(ArgsError::CommHasNul));
}

#[test]
fn tls_checks_the_library_path() {
    let mut args = tls_args();
    args.pid = Some(1);
    assert_eq!(validate_args(&args, false), Err(ArgsError::LibsslNotAFile));
    args.libssl_path = None;
    assert_eq!(validate_args(&args, true), Err(ArgsError::MissingLibsslPath));
}

#[test]
fn parses_a_full_command_line() {
    let args = Args::try_parse_from(&[
        "flowtap",
        "--json",
        "--comm",
        "curl",
        "--tls-plaintext",
        "--libssl-path=/lib/libssl.so.3",
        "--max-payload-bytes",
        "256",
        "--redact",
    ])
    .unwrap();
    assert!(args.json && args.tls_plaintext && args.redact && !args.all_processes);
    assert_eq!(args.comm.as_deref(), Some("curl"));
    assert_eq!(args.libssl_path.as_deref(), Some("/lib/libssl.so.3"));
    assert_eq!(args.max_payload_bytes, 256);
    assert_eq!(args.pid, None);
}

#[test]
fn defaults_and_errors() {
    let args = Args::try_parse_from(&["flowtap"]).unwrap();
    assert_eq!(args.max_payload_bytes, 128);
    assert!(!args.json);
    assert_eq!(
        Args::try_parse_from(&["flowtap", "--pid", "0"]).err(),
        Some(CliError::InvalidValue(OptionName::Pid))
    );
    assert_eq!(
        Args::try_parse_from(&["flowtap", "--max-payload-bytes", "4097"]).err(),
        Some(CliError::InvalidValue(OptionName::MaxPayloadBytes))
    );
    assert_eq!(
        Args::try_parse_from(&["flowtap", "--json", "--json"]).err(),
        Some(CliError::Repeated(OptionName::Json))
    );
    assert_eq!(
        Args::try_parse_from(&["flowtap", "--pid"]).err(),
        Some(CliError::MissingValue(OptionName::Pid))
    );
    assert_eq!(
        Args::try_parse_from(&["flowtap", "--json=1"]).err(),
        Some(CliError::UnexpectedValue(OptionName::Json))
    );
    assert_eq!(
        Args::try_parse_from(&["flowtap", "--bogus"]).err(),
        Some(CliError::UnknownArgument(1))
    );
    assert_eq!(
        Args::try_parse_from(&["flowtap", "--redact"]).err(),
        Some(CliError::MissingRequirement(OptionName::Redact))
    );
    assert_eq!(
        Args::try_parse_from(&["flowtap", "-h"]).err(),
        Some(CliError::HelpRequested)
    );
    assert_eq!(
        Args::try_parse_from(&["flowtap", "--version"]).err(),
        Some(CliError::VersionRequested)
    );
    assert_eq!(Args::try_parse_from(&["flowtap", "--pid", "+42"]).unwrap().pid, Some(42));
    assert_eq!(
        Args::try_parse_from(&["flowtap", "--pid", "4294967296"]).err(),
        Some(CliError::InvalidValue(OptionName::Pid))
    );
}

#[test]
fn config_holds_the_filters() {
    let mut args = tls_args();
    args.pid = Some(42);
    args.comm = Some("curl".to_string());
    args.max_payload_bytes = 64;
    let config = config_from_args(&args);
    assert_eq!(config.max_payload_bytes, 64);
    assert_eq!(config.target_pid, 42);
    assert_eq!(config.filter_comm_enabled, 1);
    assert_eq!(&config.filter_comm[..5], b"curl\0");
    args.pid = None;
    args.comm = None;
    let config = config_from_args(&args);
    assert_eq!(config.target_pid, 0);
    assert_eq!(config.filter_comm_enabled, 0);
}

#[test]
fn probes_apply_both_filters() {
    let args = Args::try_parse_from(&["flowtap", "--pid", "42", "--comm", "curl"]).unwrap();
    assert_eq!(validate_args(&args, false), Ok(()));
    let config = config_from_args(&args);
    let mut curl = [0u8; 16];
    curl[..4].copy_from_slice(b"curl");
    let mut wget = [0u8; 16];
    wget[..4].copy_from_slice(b"wget");
    assert!(should_trace(Some(config), 42, Some(curl)));
    assert!(!should_trace(Some(config), 43, Some(curl)));
    assert!(!should_trace(Some(config), 42, Some(wget)));
}

#[test]
fn short_flag_clusters_read_their_first_flag() {
    assert_eq!(
        Args::try_parse_from(&["flowtap", "-hV"]).err(),
        Some(CliError::HelpRequested)
    );
    assert_eq!(
        Args::try_parse_from(&["flowtap", "-Vh"]).err(),
        Some(CliError::VersionRequested)
    );
    assert_eq!(
        Args::try_parse_from(&["flowtap", "-x"]).err(),
        Some(CliError::UnknownArgument(1))
    );
    assert_eq!(
        Args::try_parse_from(&["flowtap", "--comm", "-h"]).err(),
        Some(CliError::MissingValue(OptionName::Comm))
    );
}

#[test]
fn comm_length_counts_bytes() {
    let mut args = tls_args();
    args.tls_plaintext = false;
    args.comm = Some("ééééééééé".to_string());
    assert_eq!(validate_args(&args, false), Err(ArgsError::CommTooLong));
    args.comm = Some("éééé".to_string());
    assert_eq!(validate_args(&args, false), Ok(()));
}

#[test]
fn plaintext_capture_is_off_by_default() {
    let args = Args::try_parse_from(&["flowtap", "--pid", "7", "--json"]).expect("valid options");
    assert!(!args.tls_plaintext);
    assert_eq!(tls_probe_library(&args), None);
}

#[test]
fn tls_probes_go_to_the_named_libssl_only_with_the_flag() {
    let args = Args::try_parse_from(&[
        "flowtap",
        "--tls-plaintext",
        "--pid",
        "7",
        "--libssl-path",
        "/usr/lib/libssl.so.3",
    ])
    .expect("valid options");
    assert_eq!(tls_probe_library(&args).map(String::as_str), Some("/usr/lib/libssl.so.3"));

    let mut without_flag = tls_args();
    without_flag.tls_plaintext = false;
    assert_eq!(tls_probe_library(&without_flag), None);
}

#[test]
fn flag_text_as_a_value_does_not_turn_capture_on() {
    let args = Args::try_parse_from(&["flowtap", "--comm=--tls-plaintext"]).expect("valid options");
    assert!(!args.tls_plaintext);
    assert_eq!(args.comm.as_deref(), Some("--tls-plaintext"));
}
