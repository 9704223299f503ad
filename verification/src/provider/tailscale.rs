//! Tailscale: the CLI of the Mac app, or a standalone `tailscale`.
use vstd::prelude::*;

use crate::json::{parse_json, json_parse, JsonValue};
use crate::provider::{lemma_text_map_empty, lemma_text_map_insert, text_map, ConnectOptions, ProviderConfig, VpnError, VpnStatus};
use crate::strmap::StrMap;
use crate::text::{append_str, decimal, owned, push_decimal};

verus! {

broadcast use vstd::string::group_string_axioms;

/// The name of the standalone Tailscale CLI.
pub const TOOL_NAME: &'static str = "tailscale";

/// The CLI bundled with the Tailscale Mac app, which talks to the app's daemon.
pub const MAC_APP_CLI: &'static str = "/Applications/Tailscale.app/Contents/MacOS/Tailscale";

/// Tailscale, driven through the CLI found when it was created.
#[derive(Debug, Clone)]
pub struct TailscaleProvider {
    cli_path: Option<String>,
}

/// The first string among `items`.
pub open spec fn first_text(items: Seq<JsonValue>) -> Option<Seq<char>>
    decreases items.len(),
{
    if items.len() == 0 {
        None
    } else {
        match items[0].str_of() {
            Some(s) => Some(s),
            None => first_text(items.drop_first()),
        }
    }
}

/// The address reported for this node: the first string of `Self.TailscaleIPs`.
pub open spec fn tailscale_ip(v: JsonValue) -> Option<Seq<char>> {
    match v.at("Self"@).at("TailscaleIPs"@).items_of() {
        Some(items) => first_text(items),
        None => None,
    }
}

/// `m` with `k` set to the text `o` holds, if it holds one.
pub open spec fn insert_some(m: Map<Seq<char>, Seq<char>>, k: Seq<char>, o: Option<Seq<char>>) -> Map<Seq<char>, Seq<char>> {
    match o {
        Some(s) => m.insert(k, s),
        None => m,
    }
}

/// The extra fields of a Tailscale status: the host name, the tailnet name, the
/// number of peers and the exit node, each when the status reports it.
pub open spec fn tailscale_extra(v: JsonValue) -> Map<Seq<char>, Seq<char>> {
    let m1 = insert_some(Map::empty(), "hostname"@, v.at("Self"@).at("HostName"@).str_of());
    let m2 = insert_some(m1, "tailnet_name"@, v.at("CurrentTailnet"@).at("Name"@).str_of());
    let m3 = match v.at("Peer"@).members_of() {
        Some(peers) => m2.insert("peers_count"@, decimal(peers.len())),
        None => m2,
    };
    insert_some(m3, "exit_node"@, v.at("ExitNodeStatus"@).at("ID"@).str_of())
}

/// The status a `tailscale status --json` document describes.
pub open spec fn tailscale_status_of(v: JsonValue, st: VpnStatus) -> bool {
    &&& st.provider@ == "Tailscale"@
    &&& st.connected == (v.at("BackendState"@).str_of() == Some("Running"@))
    &&& crate::provider::opt_text(st.ip) == tailscale_ip(v)
    &&& st.since is None
    &&& st.latency_ms is None
    &&& text_map(st.extra@) == tailscale_extra(v)
}

/// A Tailscale status is connected exactly when the document's `BackendState`
/// is the string `Running`: any other state (`NeedsLogin`, `Starting`,
/// `Stopped`, `NoState`, ...) or a missing one reads as not connected.
pub proof fn law_tailscale_connected_iff_running(v: JsonValue, st: VpnStatus)
    requires
        tailscale_status_of(v, st),
    ensures
        st.connected <==> (v.at("BackendState"@).str_of() == Some("Running"@)),
        (v.at("BackendState"@).str_of() matches Some(state) && state != "Running"@) ==> !st.connected,
        st.provider@ == "Tailscale"@,
{
}

/// The extra fields report what the document holds: the host name of `Self`,
/// the tailnet's name, the number of peers and the exit node's id, each under
/// its own key, and nothing when the document lacks it.
pub proof fn law_tailscale_extra_fields(v: JsonValue)
    ensures
        v.at("Self"@).at("HostName"@).str_of() matches Some(h) ==> tailscale_extra(v)["hostname"@] == h,
        v.at("CurrentTailnet"@).at("Name"@).str_of() matches Some(t) ==> tailscale_extra(v)["tailnet_name"@] == t,
        v.at("Peer"@).members_of() matches Some(peers) ==> tailscale_extra(v)["peers_count"@] == decimal(peers.len()),
        v.at("ExitNodeStatus"@).at("ID"@).str_of() matches Some(x) ==> tailscale_extra(v)["exit_node"@] == x,
        v.at("Self"@).at("HostName"@).str_of() is None ==> !tailscale_extra(v).dom().contains("hostname"@),
        v.at("CurrentTailnet"@).at("Name"@).str_of() is None ==> !tailscale_extra(v).dom().contains("tailnet_name"@),
        v.at("Peer"@).members_of() is None ==> !tailscale_extra(v).dom().contains("peers_count"@),
        v.at("ExitNodeStatus"@).at("ID"@).str_of() is None ==> !tailscale_extra(v).dom().contains("exit_node"@),
{
    reveal_strlit("hostname");
    reveal_strlit("tailnet_name");
    reveal_strlit("peers_count");
    reveal_strlit("exit_node");
    assert("hostname"@[0] != "tailnet_name"@[0]);
    assert("hostname"@[0] != "peers_count"@[0]);
    assert("hostname"@[0] != "exit_node"@[0]);
    assert("tailnet_name"@[0] != "peers_count"@[0]);
    assert("tailnet_name"@[0] != "exit_node"@[0]);
    assert("peers_count"@[0] != "exit_node"@[0]);
}

/// `text` for `true` and `false`, as `Display` writes them.
pub open spec fn bool_text(b: bool) -> Seq<char> {
    if b {
        "true"@
    } else {
        "false"@
    }
}

/// The member `key` of the member `outer` of `v`, as text.
fn nested_str<'a>(v: &'a JsonValue, outer: &str, key: &str) -> (r: Option<&'a String>)
    ensures
        match r {
            Some(s) => v.at(outer@).at(key@).str_of() == Some(s@),
            None => v.at(outer@).at(key@).str_of() is None,
        },
{
    match v.get(outer) {
        Some(inner) => inner.get_str(key),
        None => None,
    }
}

/// A copy of the first string among `items`.
fn first_string(items: &Vec<JsonValue>) -> (r: Option<String>)
    ensures
        crate::provider::opt_text(r) == first_text(items@),
{
    let mut i: usize = 0;
    proof {
        assert(items@.subrange(0, items@.len() as int) =~= items@);
    }
    while i < items.len()
        invariant
            i <= items@.len(),
            first_text(items@) == first_text(items@.subrange(i as int, items@.len() as int)),
        decreases items@.len() - i,
    {
        proof {
            let rest = items@.subrange(i as int, items@.len() as int);
            assert(rest[0] == items@[i as int]);
            assert(rest.drop_first() =~= items@.subrange(i + 1, items@.len() as int));
        }
        match &items[i] {
            JsonValue::Str(s) => {
                return Some(s.clone());
            },
            _ => {},
        }
        i = i + 1;
    }
    proof {
        assert(items@.subrange(i as int, items@.len() as int) =~= Seq::<JsonValue>::empty());
    }
    None
}

impl TailscaleProvider {
    /// A provider that runs the CLI at `cli_path`; `None` when no Tailscale CLI
    /// was found.
    pub fn new(cli_path: Option<String>) -> (p: Self)
        ensures
            p.cli_path() == cli_path,
    {
        TailscaleProvider { cli_path }
    }

    /// The CLI to run: the Mac App's bundled CLI when it is present (it talks to
    /// the Mac App's daemon), else the `tailscale` found on this machine, if any.
    pub fn choose_cli(bundled_present: bool, found: Option<String>) -> (r: Option<String>)
        ensures
            bundled_present ==> (r matches Some(p) && p@ == MAC_APP_CLI@),
            !bundled_present ==> r == found,
    {
        if bundled_present {
            Some(owned(MAC_APP_CLI))
        } else {
            found
        }
    }

    /// The CLI this provider runs.
    pub closed spec fn cli_path(&self) -> Option<String> {
        self.cli_path
    }

    /// The provider's name.
    pub fn name(&self) -> (s: &'static str)
        ensures
            s@ == "Tailscale"@,
    {
        "Tailscale"
    }

    /// Whether a Tailscale CLI was found.
    pub fn is_installed(&self) -> (b: bool)
        ensures
            b == self.cli_path() is Some,
    {
        self.cli_path.is_some()
    }

    /// The CLI to run, or `NotInstalled` when there is none.
    pub fn cli(&self) -> (r: Result<&str, VpnError>)
        ensures
            match r {
                Ok(s) => self.cli_path() matches Some(p) && s@ == p@,
                Err(e) => self.cli_path() is None && e is NotInstalled,
            },
    {
        match &self.cli_path {
            Some(p) => Ok(p.as_str()),
            None => Err(VpnError::NotInstalled),
        }
    }

    /// Reads the output of `tailscale status --json`: a parse error when it is
    /// not JSON, else the status that `status_from_json` gives for the document.
    pub fn parse_status(json_str: &str) -> (r: Result<VpnStatus, VpnError>)
        ensures
            match json_parse(json_str@) {
                Ok(v) => r matches Ok(st) && tailscale_status_of(v, st)
                    && st.connected == (v.at("BackendState"@).str_of() == Some("Running"@)),
                Err(msg) => r matches Err(VpnError::ParseError(m)) && m@ == msg,
            },
    {
        match parse_json(json_str) {
            Ok(v) => Ok(Self::status_from_json(&v)),
            Err(msg) => Err(VpnError::ParseError(msg)),
        }
    }

    /// The status a `tailscale status --json` document describes: connected
    /// exactly when `BackendState` is `Running`; the first address of
    /// `Self.TailscaleIPs`; and the extra fields of `tailscale_extra`.
    pub fn status_from_json(v: &JsonValue) -> (st: VpnStatus)
        ensures
            tailscale_status_of(*v, st),
            st.connected == (v.at("BackendState"@).str_of() == Some("Running"@)),
    {
        let connected = match v.get_str("BackendState") {
            Some(s) => crate::text::str_eq(s.as_str(), "Running"),
            None => false,
        };
        let mut ip: Option<String> = None;
        match v.get("Self") {
            Some(me) => match me.get("TailscaleIPs") {
                Some(JsonValue::Array(items)) => {
                    ip = first_string(items);
                },
                _ => {},
            },
            None => {},
        }
        let mut extra: StrMap<String> = StrMap::new();
        proof {
            lemma_text_map_empty();
        }
        match nested_str(v, "Self", "HostName") {
            Some(h) => {
                let h = h.clone();
                proof {
                    lemma_text_map_insert(extra@, "hostname"@, h);
                }
                extra.insert(owned("hostname"), h);
            },
            None => {},
        }
        match nested_str(v, "CurrentTailnet", "Name") {
            Some(t) => {
                let t = t.clone();
                proof {
                    lemma_text_map_insert(extra@, "tailnet_name"@, t);
                }
                extra.insert(owned("tailnet_name"), t);
            },
            None => {},
        }
        match v.get("Peer") {
            Some(JsonValue::Object(peers)) => {
                let mut count = String::new();
                push_decimal(&mut count, peers.len() as u64);
                proof {
                    lemma_text_map_insert(extra@, "peers_count"@, count);
                }
                extra.insert(owned("peers_count"), count);
            },
            _ => {},
        }
        match nested_str(v, "ExitNodeStatus", "ID") {
            Some(x) => {
                let x = x.clone();
                proof {
                    lemma_text_map_insert(extra@, "exit_node"@, x);
                }
                extra.insert(owned("exit_node"), x);
            },
            None => {},
        }
        VpnStatus { provider: owned("Tailscale"), connected, ip, since: None, latency_ms: None, extra }
    }

    /// The arguments of the connect command: `up`, then `--exit-node=<node>` when
    /// the options carry a Tailscale configuration with an exit node.
    pub fn connect_args(opts: &ConnectOptions) -> (r: Vec<String>)
        ensures
            match opts.provider_config {
                Some(ProviderConfig::Tailscale { exit_node: Some(node), .. }) => r@.len() == 2 && r@[0]@ == "up"@
                    && r@[1]@ == "--exit-node="@ + node@,
                _ => r@.len() == 1 && r@[0]@ == "up"@,
            },
    {
        let mut args: Vec<String> = Vec::new();
        args.push(owned("up"));
        match &opts.provider_config {
            Some(ProviderConfig::Tailscale { exit_node: Some(node), .. }) => {
                let mut flag = owned("--exit-node=");
                append_str(&mut flag, node.as_str());
                args.push(flag);
            },
            _ => {},
        }
        args
    }

    /// The arguments of the command that applies a configuration:
    /// `set --accept-routes=<bool> --shields-up=<bool>`; none for a configuration
    /// of another provider.
    pub fn set_config_args(config: &ProviderConfig) -> (r: Option<Vec<String>>)
        ensures
            match config {
                ProviderConfig::Tailscale { accept_routes, shields_up, .. } => r matches Some(args) && args@.len() == 3
                    && args@[0]@ == "set"@ && args@[1]@ == "--accept-routes="@ + bool_text(*accept_routes)
                    && args@[2]@ == "--shields-up="@ + bool_text(*shields_up),
                _ => r is None,
            },
    {
        match config {
            ProviderConfig::Tailscale { accept_routes, shields_up, .. } => {
                let mut args: Vec<String> = Vec::new();
                args.push(owned("set"));
                let mut routes = owned("--accept-routes=");
                append_str(&mut routes, if *accept_routes { "true" } else { "false" });
                args.push(routes);
                let mut shields = owned("--shields-up=");
                append_str(&mut shields, if *shields_up { "true" } else { "false" });
                args.push(shields);
                Some(args)
            },
            _ => None,
        }
    }

    /// The settings reported for Tailscale: no exit node, routes not accepted,
    /// shields down.
    pub fn get_config(&self) -> (c: ProviderConfig)
        ensures
            c == (ProviderConfig::Tailscale { exit_node: None, accept_routes: false, shields_up: false }),
    {
        ProviderConfig::Tailscale { exit_node: None, accept_routes: false, shields_up: false }
    }
}

} // verus!
