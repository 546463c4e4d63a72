use netom::cli::error::{CliError, EXIT_API, EXIT_OK, EXIT_TRANSPORT, EXIT_USAGE};

fn from(err: std::io::Error) -> CliError {
    CliError::from_io(
        err.kind() == std::io::ErrorKind::BrokenPipe,
        &err.to_string(),
    )
}

#[test]
fn a_closed_reader_is_not_a_failure() {
    let err = from(std::io::Error::new(
        std::io::ErrorKind::BrokenPipe,
        "broken pipe",
    ));
    assert!(matches!(err, CliError::BrokenPipe));
    assert_eq!(err.exit_code(), EXIT_OK);
    assert!(err.is_silent());
    assert_eq!(err.to_text(), "");
}

#[test]
fn other_io_errors_are_transport_failures() {
    let err = from(std::io::Error::new(
        std::io::ErrorKind::ConnectionReset,
        "reset",
    ));
    assert_eq!(err.exit_code(), EXIT_TRANSPORT);
    assert!(!err.is_silent());
}

#[test]
fn a_404_points_at_version_skew() {
    let err = CliError::from_http(404, "/api/v1/status", "");
    assert_eq!(err.exit_code(), EXIT_API);
    assert!(err.to_text().contains("older than this CLI"));
}

#[test]
fn the_daemon_error_envelope_is_unwrapped() {
    let err = CliError::from_http(
        500,
        "/api/v1/ribs/ipv4unicast/routes",
        r#"{"data":null,"error":"store unavailable"}"#,
    );
    assert_eq!(err.to_text(), "% store unavailable");
}

#[test]
fn usage_errors_are_shown_as_they_are() {
    let err = CliError::usage("% No such command.");
    assert_eq!(err.exit_code(), EXIT_USAGE);
    assert_eq!(err.to_text(), "% No such command.");
}
