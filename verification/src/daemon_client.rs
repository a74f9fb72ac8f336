//! The client side of the daemon connection: timeouts, errors and the
//! decisions taken on them.
use vstd::prelude::*;
use crate::system::SocketConnector;
use crate::text::{owned, same_text};
use crate::cfg::alias::byte_len;
use crate::protocol::{DaemonResponse, MAX_MESSAGE_SIZE, too_large_message, validate_message_size};

verus! {

/// Timeouts (in milliseconds) and retries for talking to the daemon.
#[derive(Debug, Clone, Copy, PartialEq, Eq, Structural)]
pub struct DaemonClientConfig {
    pub connection_timeout_ms: u64,
    pub read_timeout_ms: u64,
    pub write_timeout_ms: u64,
    pub total_timeout_ms: u64,
    pub retry_delay_ms: u64,
    pub max_retries: u32,
}

impl Default for DaemonClientConfig {
    fn default() -> (c: Self)
        ensures
            c.connection_timeout_ms == 100,
            c.read_timeout_ms == 200,
            c.write_timeout_ms == 50,
            c.total_timeout_ms == 300,
            c.retry_delay_ms == 50,
            c.max_retries == 1,
    {
        DaemonClientConfig {
            connection_timeout_ms: 100,
            read_timeout_ms: 200,
            write_timeout_ms: 50,
            total_timeout_ms: 300,
            retry_delay_ms: 50,
            max_retries: 1,
        }
    }
}

/// What can go wrong talking to the daemon.
#[derive(Debug, Clone)]
pub enum DaemonError {
    ConnectionTimeout,
    ReadTimeout,
    WriteTimeout,
    ConnectionRefused,
    SocketNotFound,
    SocketPermissionDenied,
    ProtocolError(String),
    DaemonShutdown,
    TotalOperationTimeout,
    UnknownError(String),
}

impl PartialEq for DaemonError {
    fn eq(&self, other: &Self) -> (r: bool) {
        match (self, other) {
            (DaemonError::ConnectionTimeout, DaemonError::ConnectionTimeout) => true,
            (DaemonError::ReadTimeout, DaemonError::ReadTimeout) => true,
            (DaemonError::WriteTimeout, DaemonError::WriteTimeout) => true,
            (DaemonError::ConnectionRefused, DaemonError::ConnectionRefused) => true,
            (DaemonError::SocketNotFound, DaemonError::SocketNotFound) => true,
            (DaemonError::SocketPermissionDenied, DaemonError::SocketPermissionDenied) => true,
            (DaemonError::ProtocolError(a), DaemonError::ProtocolError(b)) => same_text(a.as_str(), b.as_str()),
            (DaemonError::DaemonShutdown, DaemonError::DaemonShutdown) => true,
            (DaemonError::TotalOperationTimeout, DaemonError::TotalOperationTimeout) => true,
            (DaemonError::UnknownError(a), DaemonError::UnknownError(b)) => same_text(a.as_str(), b.as_str()),
            _ => false,
        }
    }
}

impl vstd::std_specs::cmp::PartialEqSpecImpl for DaemonError {
    open spec fn obeys_eq_spec() -> bool {
        true
    }

    open spec fn eq_spec(&self, other: &Self) -> bool {
        match (self, other) {
            (DaemonError::ConnectionTimeout, DaemonError::ConnectionTimeout) => true,
            (DaemonError::ReadTimeout, DaemonError::ReadTimeout) => true,
            (DaemonError::WriteTimeout, DaemonError::WriteTimeout) => true,
            (DaemonError::ConnectionRefused, DaemonError::ConnectionRefused) => true,
            (DaemonError::SocketNotFound, DaemonError::SocketNotFound) => true,
            (DaemonError::SocketPermissionDenied, DaemonError::SocketPermissionDenied) => true,
            (DaemonError::ProtocolError(a), DaemonError::ProtocolError(b)) => a@ == b@,
            (DaemonError::DaemonShutdown, DaemonError::DaemonShutdown) => true,
            (DaemonError::TotalOperationTimeout, DaemonError::TotalOperationTimeout) => true,
            (DaemonError::UnknownError(a), DaemonError::UnknownError(b)) => a@ == b@,
            _ => false,
        }
    }
}

impl DaemonError {
    /// The message that describes the error.
    pub open spec fn message(&self) -> Seq<char> {
        match self {
            DaemonError::ConnectionTimeout => "Daemon connection timeout"@,
            DaemonError::ReadTimeout => "Daemon read timeout"@,
            DaemonError::WriteTimeout => "Daemon write timeout"@,
            DaemonError::ConnectionRefused => "Daemon connection refused"@,
            DaemonError::SocketNotFound => "Daemon socket not found"@,
            DaemonError::SocketPermissionDenied => "Daemon socket permission denied"@,
            DaemonError::ProtocolError(m) => "Daemon protocol error: "@ + m@,
            DaemonError::DaemonShutdown => "Daemon is shutting down"@,
            DaemonError::TotalOperationTimeout => "Total daemon operation timeout"@,
            DaemonError::UnknownError(m) => "Unknown daemon error: "@ + m@,
        }
    }

    /// The message that describes the error; see [`DaemonError::message`].
    pub fn to_string(&self) -> (r: String)
        ensures
            r@ == self.message(),
    {
        match self {
            DaemonError::ConnectionTimeout => owned("Daemon connection timeout"),
            DaemonError::ReadTimeout => owned("Daemon read timeout"),
            DaemonError::WriteTimeout => owned("Daemon write timeout"),
            DaemonError::ConnectionRefused => owned("Daemon connection refused"),
            DaemonError::SocketNotFound => owned("Daemon socket not found"),
            DaemonError::SocketPermissionDenied => owned("Daemon socket permission denied"),
            DaemonError::ProtocolError(m) => {
                let mut s = owned("Daemon protocol error: ");
                s.append(m.as_str());
                s
            },
            DaemonError::DaemonShutdown => owned("Daemon is shutting down"),
            DaemonError::TotalOperationTimeout => owned("Total daemon operation timeout"),
            DaemonError::UnknownError(m) => {
                let mut s = owned("Unknown daemon error: ");
                s.append(m.as_str());
                s
            },
        }
    }
}

/// Only a connection that timed out or was refused is worth another try.
pub fn should_retry(error: &DaemonError) -> (b: bool)
    ensures
        b <==> (error is ConnectionTimeout || error is ConnectionRefused),
{
    match error {
        DaemonError::ConnectionTimeout => true,
        DaemonError::ConnectionRefused => true,
        _ => false,
    }
}

/// The kinds of I/O failure the client tells apart.
#[derive(Debug, Clone, Copy, PartialEq, Eq, Structural)]
pub enum IoFailure {
    TimedOut,
    ConnectionRefused,
    NotFound,
    PermissionDenied,
    WouldBlock,
    Other,
}

/// The kind of an I/O error, as `std::io::Error::kind` reports it, among
/// those the client tells apart. Nothing is claimed of the result.
#[verifier::external_body]
fn io_failure_of(error: &std::io::Error) -> IoFailure {
    match error.kind() {
        std::io::ErrorKind::TimedOut => IoFailure::TimedOut,
        std::io::ErrorKind::ConnectionRefused => IoFailure::ConnectionRefused,
        std::io::ErrorKind::NotFound => IoFailure::NotFound,
        std::io::ErrorKind::PermissionDenied => IoFailure::PermissionDenied,
        std::io::ErrorKind::WouldBlock => IoFailure::WouldBlock,
        _ => IoFailure::Other,
    }
}

/// The text of an I/O error, as its `Display` writes it. Nothing is
/// claimed of the result.
#[verifier::external_body]
fn io_error_text(error: &std::io::Error) -> String {
    error.to_string()
}

/// The daemon error for an I/O failure of kind `kind` with text `text`.
pub open spec fn categorized(kind: IoFailure, text: Seq<char>) -> DaemonError {
    match kind {
        IoFailure::TimedOut => DaemonError::ConnectionTimeout,
        IoFailure::ConnectionRefused => DaemonError::ConnectionRefused,
        IoFailure::NotFound => DaemonError::SocketNotFound,
        IoFailure::PermissionDenied => DaemonError::SocketPermissionDenied,
        IoFailure::WouldBlock => DaemonError::ReadTimeout,
        IoFailure::Other => DaemonError::UnknownError(arbitrary()),
    }
}

/// The daemon error for an I/O failure of kind `kind` with text `text`:
/// a timeout is a connection timeout, a missing path a missing socket, a
/// refusal and a denied permission are themselves, an operation that would
/// block is a read timeout, and anything else an unknown error with the
/// text.
pub fn categorize_io_failure(kind: IoFailure, text: String) -> (r: DaemonError)
    ensures
        kind !is Other ==> r == categorized(kind, text@),
        kind is Other ==> (r matches DaemonError::UnknownError(m) && m@ == text@),
{
    match kind {
        IoFailure::TimedOut => DaemonError::ConnectionTimeout,
        IoFailure::ConnectionRefused => DaemonError::ConnectionRefused,
        IoFailure::NotFound => DaemonError::SocketNotFound,
        IoFailure::PermissionDenied => DaemonError::SocketPermissionDenied,
        IoFailure::WouldBlock => DaemonError::ReadTimeout,
        IoFailure::Other => DaemonError::UnknownError(text),
    }
}

/// The daemon error for an I/O error; see [`categorize_io_failure`].
pub fn categorize_io_error(error: &std::io::Error) -> (r: DaemonError)
    ensures
        !(r is WriteTimeout || r is ProtocolError || r is DaemonShutdown || r is TotalOperationTimeout),
{
    let kind = io_failure_of(error);
    let text = io_error_text(error);
    categorize_io_failure(kind, text)
}

/// The verdict on a socket path from what was found there: whether
/// anything is at the path and, when something is, whether it is a socket
/// (or the error met finding out).
pub open spec fn socket_verdict(exists: bool, probe: Result<bool, DaemonError>) -> Result<(), DaemonError> {
    if !exists {
        Err(DaemonError::SocketNotFound)
    } else {
        match probe {
            Ok(true) => Ok(()),
            Ok(false) => Err(DaemonError::SocketNotFound),
            Err(e) => Err(e),
        }
    }
}

/// The verdict on a socket path; see [`socket_verdict`].
pub fn judge_socket(exists: bool, probe: Result<bool, DaemonError>) -> (r: Result<(), DaemonError>)
    ensures
        r == socket_verdict(exists, probe),
{
    if !exists {
        Err(DaemonError::SocketNotFound)
    } else {
        match probe {
            Ok(true) => Ok(()),
            Ok(false) => Err(DaemonError::SocketNotFound),
            Err(e) => Err(e),
        }
    }
}

/// A client of the daemon that reaches its socket through `connector`.
pub struct DaemonClient<C: SocketConnector> {
    pub connector: C,
    pub config: DaemonClientConfig,
}

impl<C: SocketConnector> DaemonClient<C> {
    /// A client with the default timeouts.
    pub fn with_connector(connector: C) -> (r: Self)
        ensures
            r.connector == connector,
            r.config.connection_timeout_ms == 100,
            r.config.read_timeout_ms == 200,
            r.config.write_timeout_ms == 50,
            r.config.total_timeout_ms == 300,
            r.config.retry_delay_ms == 50,
            r.config.max_retries == 1,
    {
        DaemonClient { connector, config: DaemonClientConfig::default() }
    }

    /// A client with the given timeouts.
    pub fn with_connector_and_config(connector: C, config: DaemonClientConfig) -> (r: Self)
        ensures
            r.connector == connector,
            r.config == config,
    {
        DaemonClient { connector, config }
    }

    /// Checks that a socket is at `socket_path`: a missing path, or one that
    /// is not a socket, is `SocketNotFound`; a failure to tell is
    /// categorized as an I/O error.
    pub fn validate_socket_path(&self, socket_path: &str) -> (r: Result<(), DaemonError>)
        ensures
            r matches Err(e) ==> !(e is WriteTimeout || e is ProtocolError || e is DaemonShutdown
                || e is TotalOperationTimeout),
    {
        if !self.connector.path_exists(socket_path) {
            return judge_socket(false, Ok(false));
        }
        let probe = match self.connector.is_socket(socket_path) {
            Ok(b) => Ok(b),
            Err(e) => Err(categorize_io_error(&e)),
        };
        judge_socket(true, probe)
    }
}

/// The daemon error for a failed write: a timeout is a write timeout, any
/// other failure is categorized as for a connection (see [`categorized`]).
pub fn categorize_write_failure(kind: IoFailure, text: String) -> (r: DaemonError)
    ensures
        kind is TimedOut ==> r is WriteTimeout,
        !(kind is TimedOut) && !(kind is Other) ==> r == categorized(kind, text@),
        kind is Other ==> (r matches DaemonError::UnknownError(m) && m@ == text@),
{
    match kind {
        IoFailure::TimedOut => DaemonError::WriteTimeout,
        _ => categorize_io_failure(kind, text),
    }
}

/// The daemon error for a failed read: a timeout is a read timeout, any
/// other failure is categorized as for a connection (see [`categorized`]).
pub fn categorize_read_failure(kind: IoFailure, text: String) -> (r: DaemonError)
    ensures
        kind is TimedOut ==> r is ReadTimeout,
        !(kind is TimedOut) && !(kind is Other) ==> r == categorized(kind, text@),
        kind is Other ==> (r matches DaemonError::UnknownError(m) && m@ == text@),
{
    match kind {
        IoFailure::TimedOut => DaemonError::ReadTimeout,
        _ => categorize_io_failure(kind, text),
    }
}

/// The daemon error for an I/O error met while writing a request; see
/// [`categorize_write_failure`].
pub fn categorize_write_error(error: &std::io::Error) -> (r: DaemonError)
    ensures
        !(r is ProtocolError || r is DaemonShutdown || r is TotalOperationTimeout),
{
    let kind = io_failure_of(error);
    let text = io_error_text(error);
    categorize_write_failure(kind, text)
}

/// The daemon error for an I/O error met while reading a response; see
/// [`categorize_read_failure`].
pub fn categorize_read_error(error: &std::io::Error) -> (r: DaemonError)
    ensures
        !(r is WriteTimeout || r is ProtocolError || r is DaemonShutdown || r is TotalOperationTimeout),
{
    let kind = io_failure_of(error);
    let text = io_error_text(error);
    categorize_read_failure(kind, text)
}

/// Whether the whole exchange has run out of time after `elapsed_ms`.
pub fn deadline_passed(config: &DaemonClientConfig, elapsed_ms: u64) -> (b: bool)
    ensures
        b <==> elapsed_ms >= config.total_timeout_ms,
{
    elapsed_ms >= config.total_timeout_ms
}

/// What the client does before attempt number `attempt` (counted from 0),
/// `elapsed_ms` into the exchange: give up with `TotalOperationTimeout` once
/// the total timeout is spent, else wait the retry delay (nothing before the
/// first attempt) and try.
pub fn before_attempt(config: &DaemonClientConfig, attempt: u32, elapsed_ms: u64) -> (r: Result<u64, DaemonError>)
    ensures
        elapsed_ms >= config.total_timeout_ms ==> r == Err::<u64, DaemonError>(DaemonError::TotalOperationTimeout),
        elapsed_ms < config.total_timeout_ms && attempt == 0 ==> r == Ok::<u64, DaemonError>(0),
        elapsed_ms < config.total_timeout_ms && attempt > 0 ==> r == Ok::<u64, DaemonError>(config.retry_delay_ms),
{
    if deadline_passed(config, elapsed_ms) {
        Err(DaemonError::TotalOperationTimeout)
    } else if attempt == 0 {
        Ok(0)
    } else {
        Ok(config.retry_delay_ms)
    }
}

/// The client tries again after attempt number `attempt` failed with
/// `error`: the failure is worth retrying and retries are left.
pub open spec fn retries_again(config: DaemonClientConfig, attempt: nat, error: DaemonError) -> bool {
    (error is ConnectionTimeout || error is ConnectionRefused) && attempt < config.max_retries
}

/// How many times a request is tried when every attempt fails with `error`
/// before the total timeout: `max_retries + 1` times for a failure worth
/// retrying, once otherwise.
pub open spec fn attempts_for(config: DaemonClientConfig, error: DaemonError) -> nat {
    if error is ConnectionTimeout || error is ConnectionRefused {
        config.max_retries as nat + 1
    } else {
        1
    }
}

/// When every attempt fails with the same error, the client tries again
/// after each attempt but the last of [`attempts_for`], and reports the
/// error after that one.
pub proof fn law_attempts_when_every_try_fails(config: DaemonClientConfig, error: DaemonError, attempt: nat)
    requires
        attempt < attempts_for(config, error),
    ensures
        retries_again(config, attempt, error) <==> attempt + 1 < attempts_for(config, error),
{
}

/// What the client does after attempt number `attempt` failed with `error`:
/// `None` to try again, which it does only for an error worth retrying (see
/// [`should_retry`]) while retries are left; else the error to report.
pub fn after_failed_attempt(config: &DaemonClientConfig, attempt: u32, error: DaemonError) -> (r: Option<DaemonError>)
    ensures
        r is None <==> retries_again(*config, attempt as nat, error),
        r matches Some(e) ==> e == error,
{
    if should_retry(&error) && attempt < config.max_retries {
        None
    } else {
        Some(error)
    }
}

/// The outcome of a request whose answer was `response`: an acknowledged
/// shutdown is the error `DaemonShutdown`, any other answer is the result.
pub fn accept_response(response: DaemonResponse) -> (r: Result<DaemonResponse, DaemonError>)
    ensures
        response is ShutdownAck ==> r == Err::<DaemonResponse, DaemonError>(DaemonError::DaemonShutdown),
        !(response is ShutdownAck) ==> r == Ok::<DaemonResponse, DaemonError>(response),
{
    match response {
        DaemonResponse::ShutdownAck => Err(DaemonError::DaemonShutdown),
        _ => Ok(response),
    }
}

/// Checks the size of a response line before it is parsed: one over
/// [`crate::protocol::MAX_MESSAGE_SIZE`] bytes is a protocol error that
/// carries the size complaint.
pub fn check_response_size(line: &str) -> (r: Result<(), DaemonError>)
    ensures
        r is Ok <==> byte_len(line@) <= MAX_MESSAGE_SIZE,
        r matches Err(e) ==> (e matches DaemonError::ProtocolError(m) && m@ == "Response validation failed: "@
            + too_large_message(byte_len(line@))),
{
    match validate_message_size(line) {
        Ok(()) => Ok(()),
        Err(e) => {
            let mut m = owned("Response validation failed: ");
            m.append(e.as_str());
            Err(DaemonError::ProtocolError(m))
        },
    }
}

} // verus!
