use hyprpier::apply::apply_profile;
use hyprpier::daemon::{
    daemon_startup, error_response, get_socket_path, ok_response, parse_request, response_is_error,
    status_response, unknown_response, BindAttempt, Request, StartupOutcome,
};
use hyprpier::metadata::Metadata;

#[test]
fn status_before_any_apply_reports_none() {
    let m = Metadata::default();
    assert_eq!(status_response(&m), "OK: none\n");
}

#[test]
fn status_after_apply_reports_the_profile() {
    let mut m = Metadata::default();
    apply_profile(&mut m, "A", 42);
    assert_eq!(status_response(&m), "OK: A\n");
}

#[test]
fn requests_are_parsed_with_surrounding_whitespace_ignored() {
    assert_eq!(parse_request("refresh"), Request::Refresh);
    assert_eq!(parse_request("  refresh\n"), Request::Refresh);
    assert_eq!(parse_request("status"), Request::Status);
    assert_eq!(parse_request("\tstatus\r\n"), Request::Status);
    assert_eq!(parse_request("reboot"), Request::Unknown);
    assert_eq!(parse_request(""), Request::Unknown);
    assert_eq!(parse_request("refresh now"), Request::Unknown);
}

#[test]
fn responses_have_exact_text() {
    assert_eq!(ok_response(), "OK\n");
    assert_eq!(error_response("boom"), "ERROR: boom\n");
    assert_eq!(unknown_response(" reboot\n"), "ERROR: Unknown command: reboot\n");
}

#[test]
fn error_responses_are_recognised() {
    assert!(response_is_error("ERROR: no daemon\n"));
    assert!(!response_is_error("OK: none\n"));
    assert!(!response_is_error("ERR"));
}

#[test]
fn socket_path_is_under_the_runtime_directory() {
    assert_eq!(get_socket_path("/run/user/1000"), "/run/user/1000/hyprpier.sock");
}

#[test]
fn second_daemon_fails_while_first_is_alive() {
    // The liveness check answered: another instance is serving.
    assert_eq!(
        daemon_startup(true, BindAttempt::Failed, BindAttempt::Failed),
        StartupOutcome::AlreadyRunning
    );
    assert_eq!(
        daemon_startup(true, BindAttempt::Bound, BindAttempt::Bound),
        StartupOutcome::AlreadyRunning
    );
}

#[test]
fn bind_succeeds_after_the_stale_socket_is_removed() {
    // No live peer, first bind hits the stale file, retry after removal
    // succeeds.
    assert_eq!(
        daemon_startup(false, BindAttempt::AddrInUse, BindAttempt::Bound),
        StartupOutcome::StartedAfterCleanup
    );
    // A clean first bind serves directly.
    assert_eq!(
        daemon_startup(false, BindAttempt::Bound, BindAttempt::Failed),
        StartupOutcome::Started
    );
}

#[test]
fn unrecoverable_bind_failures_are_fatal() {
    assert_eq!(
        daemon_startup(false, BindAttempt::AddrInUse, BindAttempt::AddrInUse),
        StartupOutcome::Fatal
    );
    assert_eq!(
        daemon_startup(false, BindAttempt::Failed, BindAttempt::Bound),
        StartupOutcome::Fatal
    );
}
