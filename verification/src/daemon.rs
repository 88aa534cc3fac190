//! The control daemon's protocol and startup decisions.
//!
//! The daemon itself is a single-threaded blocking accept loop run outside
//! the library: it reads one request per connection, hands the decoded
//! payload in, and writes the response the library built back to the
//! client.  This module holds everything decidable about that loop: how a
//! payload is parsed, what each response says, and what startup does for
//! each combination of liveness-check and bind results.

use vstd::prelude::*;

use crate::metadata::Metadata;
use crate::strutil::{spec_trim, starts_with, str_eq, str_starts_with, trim};

verus! {

/// The socket path under the session runtime directory.
pub open spec fn spec_socket_path(runtime_dir: Seq<char>) -> Seq<char> {
    runtime_dir + "/hyprpier.sock"@
}

/// Get the daemon socket path (`<runtime-dir>/hyprpier.sock`).
pub fn get_socket_path(runtime_dir: &str) -> (r: String)
    ensures
        r@ == spec_socket_path(runtime_dir@),
{
    String::from_str(runtime_dir).concat("/hyprpier.sock")
}

/// A request, decoded from one connection's payload.
#[derive(Clone, Copy, Debug, PartialEq, Eq, Structural)]
pub enum Request {
    /// Wait for the bus to settle, then resolve and apply.
    Refresh,
    /// Report the recorded active profile; no hardware access.
    Status,
    /// Anything else: answered with an error, without side effects.
    Unknown,
}

/// Parse one request payload: surrounding whitespace is ignored; exactly
/// `"refresh"` and `"status"` are commands, anything else is unknown.
pub fn parse_request(payload: &str) -> (r: Request)
    ensures
        r == Request::Refresh <==> spec_trim(payload@) == "refresh"@,
        r == Request::Status <==> (spec_trim(payload@) == "status"@ && spec_trim(payload@)
            != "refresh"@),
        r == Request::Unknown <==> (spec_trim(payload@) != "refresh"@ && spec_trim(payload@)
            != "status"@),
{
    let t = trim(payload);
    if str_eq(t, "refresh") {
        Request::Refresh
    } else if str_eq(t, "status") {
        Request::Status
    } else {
        Request::Unknown
    }
}

/// The `status` response: `OK: <active profile>\n`, with `none` before any
/// profile was ever applied.
pub fn status_response(m: &Metadata) -> (r: String)
    ensures
        match m@.active_profile {
            Option::Some(name) => r@ == "OK: "@ + name + "\n"@,
            Option::None => r@ == "OK: none\n"@,
        },
{
    match &m.active_profile {
        Option::Some(name) => {
            let r = String::from_str("OK: ").concat(name.as_str()).concat("\n");
            proof {
                assert(r@ =~= "OK: "@ + m@.active_profile->Some_0 + "\n"@);
            }
            r
        },
        Option::None => {
            let r = String::from_str("OK: none\n");
            r
        },
    }
}

/// The successful `refresh` response.
pub fn ok_response() -> (r: String)
    ensures
        r@ == "OK\n"@,
{
    String::from_str("OK\n")
}

/// The response for a failed operation: `ERROR: <message>\n`.
pub fn error_response(message: &str) -> (r: String)
    ensures
        r@ == "ERROR: "@ + message@ + "\n"@,
{
    let r = String::from_str("ERROR: ").concat(message).concat("\n");
    proof {
        assert(r@ =~= "ERROR: "@ + message@ + "\n"@);
    }
    r
}

/// The response for an unknown command, quoting the trimmed payload.
pub fn unknown_response(payload: &str) -> (r: String)
    ensures
        r@ == "ERROR: Unknown command: "@ + spec_trim(payload@) + "\n"@,
{
    let t = trim(payload);
    let r = String::from_str("ERROR: Unknown command: ").concat(t).concat("\n");
    proof {
        assert(r@ =~= "ERROR: Unknown command: "@ + spec_trim(payload@) + "\n"@);
    }
    r
}

/// Whether a daemon response reports a failure, which a client propagates.
pub fn response_is_error(response: &str) -> (r: bool)
    ensures
        r == starts_with(response@, "ERROR"@),
{
    str_starts_with(response, "ERROR")
}

/// The result of one attempt to bind the daemon socket.
#[derive(Clone, Copy, Debug, PartialEq, Eq, Structural)]
pub enum BindAttempt {
    /// The bind succeeded.
    Bound,
    /// The address is already in use (a live daemon or a stale socket file).
    AddrInUse,
    /// Any other failure.
    Failed,
}

/// What daemon startup concluded.
#[derive(Clone, Copy, Debug, PartialEq, Eq, Structural)]
pub enum StartupOutcome {
    /// Another instance answered the liveness check: fail fast.
    AlreadyRunning,
    /// The first bind succeeded: serve.
    Started,
    /// The first bind hit a stale socket file; after removing it the retry
    /// succeeded: serve.
    StartedAfterCleanup,
    /// Startup cannot proceed: fatal to daemon startup only.
    Fatal,
}

/// Decide daemon startup from the liveness check and the bind attempts.
///
/// `peer_alive` is whether connecting to the well-known socket path
/// succeeded; `first` is the first bind result; `second` is the result of
/// the one retry made after removing a stale socket file (ignored unless the
/// first attempt reported the address in use).
pub fn daemon_startup(peer_alive: bool, first: BindAttempt, second: BindAttempt) -> (r:
    StartupOutcome)
    ensures
        r == StartupOutcome::AlreadyRunning <==> peer_alive,
        r == StartupOutcome::Started <==> (!peer_alive && first == BindAttempt::Bound),
        r == StartupOutcome::StartedAfterCleanup <==> (!peer_alive && first
            == BindAttempt::AddrInUse && second == BindAttempt::Bound),
        r == StartupOutcome::Fatal <==> (!peer_alive && (first == BindAttempt::Failed || (first
            == BindAttempt::AddrInUse && second != BindAttempt::Bound))),
{
    if peer_alive {
        StartupOutcome::AlreadyRunning
    } else {
        match first {
            BindAttempt::Bound => StartupOutcome::Started,
            BindAttempt::AddrInUse => match second {
                BindAttempt::Bound => StartupOutcome::StartedAfterCleanup,
                _ => StartupOutcome::Fatal,
            },
            BindAttempt::Failed => StartupOutcome::Fatal,
        }
    }
}

} // verus!
