//! What every VPN provider reports and accepts: status, configuration, errors.
pub mod pritunl;
pub mod tailscale;
pub mod warp;
pub mod wireguard;

use vstd::prelude::*;

use crate::strmap::StrMap;
use crate::text::{append_str, owned};
use crate::util::exec::{exec_error_text, ExecError};

verus! {

/// The state of one VPN connection.
#[derive(Debug, Clone)]
pub struct VpnStatus {
    pub provider: String,
    pub connected: bool,
    pub ip: Option<String>,
    /// When the connection came up, in seconds since the Unix epoch.
    pub since: Option<i64>,
    pub latency_ms: Option<u32>,
    pub extra: StrMap<String>,
}

/// The character views of a map of strings.
pub open spec fn text_map(m: Map<Seq<char>, String>) -> Map<Seq<char>, Seq<char>> {
    m.map_values(|s: String| s@)
}

pub proof fn lemma_text_map_insert(m: Map<Seq<char>, String>, k: Seq<char>, v: String)
    ensures
        text_map(m.insert(k, v)) == text_map(m).insert(k, v@),
{
    assert(text_map(m.insert(k, v)) =~= text_map(m).insert(k, v@));
}

pub proof fn lemma_text_map_empty()
    ensures
        text_map(Map::<Seq<char>, String>::empty()) == Map::<Seq<char>, Seq<char>>::empty(),
{
    assert(text_map(Map::<Seq<char>, String>::empty()) =~= Map::<Seq<char>, Seq<char>>::empty());
}

/// The characters of an optional string.
pub open spec fn opt_text(o: Option<String>) -> Option<Seq<char>> {
    match o {
        Some(s) => Some(s@),
        None => None,
    }
}

/// How Cloudflare WARP routes traffic.
#[derive(Debug, Clone, Copy, PartialEq, Eq, Structural)]
pub enum WarpMode {
    Warp,
    DnsOnly,
    Proxy,
}

/// The settings of one provider.
#[derive(Debug, Clone)]
pub enum ProviderConfig {
    Tailscale { exit_node: Option<String>, accept_routes: bool, shields_up: bool },
    Warp { mode: WarpMode, families_mode: bool },
    WireGuard { config_file: String, interface: String },
    Pritunl { profile_id: String, password: Option<String> },
}

/// Options for a connect request.
#[derive(Debug, Clone)]
pub struct ConnectOptions {
    pub provider_config: Option<ProviderConfig>,
}

/// A provider as the dashboard lists it.
#[derive(Debug, Clone)]
pub struct ProviderInfo {
    pub name: String,
    pub installed: bool,
    pub enabled: bool,
}

/// Why a provider operation failed.
#[derive(Debug, Clone)]
pub enum VpnError {
    NotInstalled,
    CliError(String),
    ParseError(String),
    PermissionDenied,
    Timeout,
}

/// The message of a `VpnError`.
pub open spec fn vpn_error_text(e: VpnError) -> Seq<char> {
    match e {
        VpnError::NotInstalled => "VPN tool is not installed"@,
        VpnError::CliError(m) => "CLI error: "@ + m@,
        VpnError::ParseError(m) => "Parse error: "@ + m@,
        VpnError::PermissionDenied => "Permission denied"@,
        VpnError::Timeout => "Operation timed out"@,
    }
}

impl VpnError {
    /// The message shown for this error.
    pub fn message(&self) -> (s: String)
        ensures
            s@ == vpn_error_text(*self),
    {
        match self {
            VpnError::NotInstalled => owned("VPN tool is not installed"),
            VpnError::CliError(m) => {
                let mut s = owned("CLI error: ");
                append_str(&mut s, m.as_str());
                s
            },
            VpnError::ParseError(m) => {
                let mut s = owned("Parse error: ");
                append_str(&mut s, m.as_str());
                s
            },
            VpnError::PermissionDenied => owned("Permission denied"),
            VpnError::Timeout => owned("Operation timed out"),
        }
    }
}

/// An operation on a provider whose tool is missing fails with `NotInstalled`
/// before it runs anything.
pub fn require_installed(installed: bool) -> (r: Result<(), VpnError>)
    ensures
        installed ==> r is Ok,
        !installed ==> r matches Err(VpnError::NotInstalled),
{
    if installed {
        Ok(())
    } else {
        Err(VpnError::NotInstalled)
    }
}

/// The `VpnError` a failed command becomes: a timeout stays a timeout, every
/// other failure is a CLI error carrying the I/O message or the standard error.
pub open spec fn vpn_error_of(e: ExecError) -> VpnError {
    match e {
        ExecError::Timeout => VpnError::Timeout,
        ExecError::IoError(msg) => VpnError::CliError(msg),
        ExecError::NonZeroExit { stderr, .. } => VpnError::CliError(stderr),
    }
}

impl vstd::std_specs::convert::FromSpecImpl<ExecError> for VpnError {
    open spec fn obeys_from_spec() -> bool {
        true
    }

    open spec fn from_spec(e: ExecError) -> VpnError {
        vpn_error_of(e)
    }
}

impl From<ExecError> for VpnError {
    fn from(e: ExecError) -> (r: VpnError) {
        match e {
            ExecError::Timeout => VpnError::Timeout,
            ExecError::IoError(msg) => VpnError::CliError(msg),
            ExecError::NonZeroExit { stderr, .. } => VpnError::CliError(stderr),
        }
    }
}

} // verus!
