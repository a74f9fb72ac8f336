//! The messages exchanged with the daemon, and the bound on their size.
use vstd::prelude::*;
use crate::cfg::alias::byte_len;
use crate::text::{decimal, decimal_text, owned, same_text};

verus! {

/// The largest message, in bytes, that is processed.
pub const MAX_MESSAGE_SIZE: usize = 1000000;

/// What a client asks the daemon.
#[derive(Debug, Clone)]
pub enum DaemonRequest {
    /// Expand a command line.
    Query { version: String, cmdline: String, eol: bool, config: Option<String> },
    /// List aliases, optionally only global ones or those matching patterns.
    List { version: String, global: bool, patterns: Vec<String>, config: Option<String> },
    /// Show how often aliases were used.
    Freq { version: String, all: bool, config: Option<String> },
    /// Report health.
    Health,
    /// Load the configuration again.
    ReloadConfig,
    /// Stop.
    Shutdown,
    /// List alias names for completion.
    CompleteAliases { version: String, config: Option<String> },
}

/// What the daemon answers.
#[derive(Debug, Clone)]
pub enum DaemonResponse {
    Success { data: String },
    Error { message: String },
    Health { status: String },
    ConfigReloaded { success: bool, message: String },
    ShutdownAck,
    /// The daemon runs another version and restarts.
    VersionMismatch { daemon_version: String, client_version: String, message: String },
}

/// How a listing request is laid out, as `(show_counts, show_all,
/// global_only)`: `ls` lists every alias without counts, only the global
/// ones when asked; `freq` lists aliases of every kind with their counts,
/// only the used ones unless `all`. Other requests list nothing.
pub open spec fn listing_choice(request: DaemonRequest) -> Option<(bool, bool, bool)> {
    match request {
        DaemonRequest::List { global, .. } => Some((false, true, global)),
        DaemonRequest::Freq { all, .. } => Some((true, all, false)),
        _ => None,
    }
}

/// The layout of the listing `request` asks for; see [`listing_choice`].
pub fn listing_options(request: &DaemonRequest) -> (r: Option<(bool, bool, bool)>)
    ensures
        r == listing_choice(*request),
{
    match request {
        DaemonRequest::List { global, .. } => Some((false, true, *global)),
        DaemonRequest::Freq { all, .. } => Some((true, *all, false)),
        _ => None,
    }
}

/// The error for a message of `n` bytes.
pub open spec fn too_large_message(n: nat) -> Seq<char> {
    "Message too large: "@ + decimal(n) + " bytes (max: 1000000)"@
}

/// Refuses a message longer than [`MAX_MESSAGE_SIZE`] bytes.
pub fn validate_message_size(json: &str) -> (r: Result<(), String>)
    ensures
        r is Ok <==> byte_len(json@) <= MAX_MESSAGE_SIZE,
        r matches Err(m) ==> m@ == too_large_message(byte_len(json@)),
{
    let n = json.as_bytes().len();
    if n > MAX_MESSAGE_SIZE {
        let mut m = owned("Message too large: ");
        m.append(decimal_text(n as u64).as_str());
        m.append(" bytes (max: 1000000)");
        return Err(m);
    }
    Ok(())
}

/// The client version that a request carries: queries, listings, frequency
/// and completion requests carry one, the administrative requests none.
pub open spec fn carried_version(request: DaemonRequest) -> Option<Seq<char>> {
    match request {
        DaemonRequest::Query { version, .. } => Some(version@),
        DaemonRequest::List { version, .. } => Some(version@),
        DaemonRequest::Freq { version, .. } => Some(version@),
        DaemonRequest::CompleteAliases { version, .. } => Some(version@),
        _ => None,
    }
}

/// The client version that `request` carries; see [`carried_version`].
pub fn request_version(request: &DaemonRequest) -> (r: Option<String>)
    ensures
        r is None <==> carried_version(*request) is None,
        r matches Some(v) ==> carried_version(*request) == Some(v@),
{
    match request {
        DaemonRequest::Query { version, .. } => Some(version.clone()),
        DaemonRequest::List { version, .. } => Some(version.clone()),
        DaemonRequest::Freq { version, .. } => Some(version.clone()),
        DaemonRequest::CompleteAliases { version, .. } => Some(version.clone()),
        _ => None,
    }
}

/// What a daemon of version `daemon_version` answers `request` before
/// serving it: nothing when the request carries no version or the same one;
/// otherwise that it restarts to match the client's version.
pub fn version_mismatch(daemon_version: &str, request: &DaemonRequest) -> (r: Option<DaemonResponse>)
    ensures
        r is None <==> (carried_version(*request) is None || carried_version(*request) == Some(daemon_version@)),
        r matches Some(resp) ==> (resp matches DaemonResponse::VersionMismatch { daemon_version: d, client_version: c, message: m }
            && d@ == daemon_version@ && Some(c@) == carried_version(*request)
            && m@ == "Daemon restarting to match client version"@),
{
    match request_version(request) {
        None => None,
        Some(v) => {
            if same_text(v.as_str(), daemon_version) {
                None
            } else {
                Some(DaemonResponse::VersionMismatch {
                    daemon_version: owned(daemon_version),
                    client_version: v,
                    message: owned("Daemon restarting to match client version"),
                })
            }
        },
    }
}

} // verus!
