//! WireGuard: `wg` and `wg-quick`, run with administrator rights through `osascript`.
use vstd::prelude::*;

use crate::paths::{file_stem, path_file_stem};
use crate::provider::{lemma_text_map_empty, lemma_text_map_insert, opt_text, text_map, vpn_error_of, ProviderConfig, VpnError, VpnStatus};
use crate::util::exec::ExecError;
use crate::strmap::StrMap;
use crate::text::{append_str, contains, nth_token, range_contains, skip_ws, str_eq, tokens, trim_start, chars_of, find_char, find_from, line_spans, lines, owned, range_starts_with, split_once, starts_with, string_of, strip_prefixes, strip_prefixes_from, trim, trim_bounds};

verus! {

broadcast use vstd::string::group_string_axioms;

/// A WireGuard tunnel, named by its interface.
#[derive(Debug, Clone)]
pub struct WireGuardProvider {
    pub interface: String,
}

/// The status a line of `wg show` output leaves, given the status before it: a
/// peer section (its `peer:`, `endpoint:`, `latest handshake:` or `transfer:`
/// lines) marks the tunnel connected, and the values of those lines are kept.
pub open spec fn wg_line(st: (bool, Map<Seq<char>, Seq<char>>), line: Seq<char>) -> (bool, Map<Seq<char>, Seq<char>>) {
    let t = trim(line);
    if starts_with(t, "endpoint:"@) {
        (true, st.1.insert("endpoint"@, trim(strip_prefixes(t, "endpoint:"@))))
    } else if starts_with(t, "latest handshake:"@) {
        (true, st.1.insert("latest_handshake"@, trim(strip_prefixes(t, "latest handshake:"@))))
    } else if starts_with(t, "transfer:"@) {
        match split_once(trim(strip_prefixes(t, "transfer:"@)), ',') {
            Some((rx, tx)) => (true, st.1.insert("transfer_rx"@, trim(rx)).insert("transfer_tx"@, trim(tx))),
            None => (true, st.1),
        }
    } else if starts_with(t, "peer:"@) {
        (true, st.1)
    } else {
        st
    }
}

/// The connection flag and extra fields after reading the lines `ls` of
/// `wg show` output for `interface`.
pub open spec fn wg_scan(ls: Seq<Seq<char>>, interface: Seq<char>) -> (bool, Map<Seq<char>, Seq<char>>)
    decreases ls.len(),
{
    if ls.len() == 0 {
        (false, Map::empty().insert("interface"@, interface))
    } else {
        wg_line(wg_scan(ls.drop_last(), interface), ls.last())
    }
}

/// Whether a trimmed line of `wg show` output belongs to a peer section.
pub open spec fn peer_line(t: Seq<char>) -> bool {
    starts_with(t, "peer:"@) || starts_with(t, "endpoint:"@) || starts_with(t, "latest handshake:"@) || starts_with(t, "transfer:"@)
}

/// The tunnel reads as connected exactly when some line, trimmed, starts with
/// `peer:`, `endpoint:`, `latest handshake:` or `transfer:`; and reading one more
/// line keeps it connected, or connects it when that line is such a line.
pub proof fn law_wg_connected_iff_peer_line(ls: Seq<Seq<char>>, interface: Seq<char>, l: Seq<char>)
    ensures
        wg_scan(ls, interface).0 <==> exists|i: int| 0 <= i < ls.len() && peer_line(trim(#[trigger] ls[i])),
        wg_scan(ls.push(l), interface).0 == (wg_scan(ls, interface).0 || peer_line(trim(l))),
    decreases ls.len(),
{
    assert(ls.push(l).drop_last() =~= ls);
    if ls.len() > 0 {
        let init = ls.drop_last();
        law_wg_connected_iff_peer_line(init, interface, ls.last());
        if exists|i: int| 0 <= i < init.len() && peer_line(trim(#[trigger] init[i])) {
            let i = choose|i: int| 0 <= i < init.len() && peer_line(trim(#[trigger] init[i]));
            assert(ls[i] == init[i]);
        }
        if peer_line(trim(ls.last())) {
            assert(ls[ls.len() - 1] == ls.last());
        }
        if exists|i: int| 0 <= i < ls.len() && peer_line(trim(#[trigger] ls[i])) {
            let i = choose|i: int| 0 <= i < ls.len() && peer_line(trim(#[trigger] ls[i]));
            if i < ls.len() - 1 {
                assert(init[i] == ls[i]);
            }
        }
    }
}

/// The extra fields always name the interface asked about, whatever the lines
/// say; an `endpoint:` line, trimmed, puts the trimmed text after the prefix
/// under `endpoint`.
pub proof fn law_wg_extra_fields(ls: Seq<Seq<char>>, interface: Seq<char>, l: Seq<char>)
    ensures
        wg_scan(ls, interface).1.dom().contains("interface"@),
        wg_scan(ls, interface).1["interface"@] == interface,
        starts_with(trim(l), "endpoint:"@) ==> wg_scan(ls.push(l), interface).1["endpoint"@] == trim(
            strip_prefixes(trim(l), "endpoint:"@),
        ),
    decreases ls.len(),
{
    assert(ls.push(l).drop_last() =~= ls);
    reveal_strlit("interface");
    reveal_strlit("endpoint");
    reveal_strlit("latest_handshake");
    reveal_strlit("transfer_rx");
    reveal_strlit("transfer_tx");
    if ls.len() > 0 {
        law_wg_extra_fields(ls.drop_last(), interface, ls.last());
        assert("interface"@[0] != "endpoint"@[0]);
        assert("interface"@[0] != "latest_handshake"@[0]);
        assert("interface"@[0] != "transfer_rx"@[0]);
        assert("interface"@[0] != "transfer_tx"@[0]);
    }
}

/// The name of the WireGuard status tool.
pub const TOOL_NAME: &'static str = "wg";

/// Where WireGuard configurations are looked for.
pub const CONFIG_DIRS: [&'static str; 3] = ["/etc/wireguard", "/opt/homebrew/etc/wireguard", "/usr/local/etc/wireguard"];

/// The first line whose trimmed text starts with `p`.
pub open spec fn first_trimmed_with_prefix(ls: Seq<Seq<char>>, p: Seq<char>) -> Option<Seq<char>>
    decreases ls.len(),
{
    if ls.len() == 0 {
        None
    } else if starts_with(trim(ls[0]), p) {
        Some(ls[0])
    } else {
        first_trimmed_with_prefix(ls.drop_first(), p)
    }
}

/// The address `ifconfig` reports: the second word of the first `inet ` line.
pub open spec fn ifconfig_ip(output: Seq<char>) -> Option<Seq<char>> {
    match first_trimmed_with_prefix(lines(output), "inet "@) {
        Some(line) => if tokens(line).len() >= 2 {
            Some(tokens(line)[1])
        } else {
            None
        },
        None => None,
    }
}

/// Whether `ifconfig` output shows the interface up: `status: active`, or both
/// `UP` and `RUNNING`.
pub open spec fn ifconfig_up(output: Seq<char>) -> bool {
    contains(output, "status: active"@) || (contains(output, "UP"@) && contains(output, "RUNNING"@))
}

/// A character of a command, escaped for an AppleScript string literal.
pub open spec fn escape_char(c: char) -> Seq<char> {
    if c == '\\' {
        seq!['\\', '\\']
    } else if c == '"' {
        seq!['\\', '"']
    } else {
        seq![c]
    }
}

/// A command escaped for an AppleScript string literal: backslashes doubled,
/// quotes preceded by a backslash.
pub open spec fn escape(s: Seq<char>) -> Seq<char>
    decreases s.len(),
{
    if s.len() == 0 {
        seq![]
    } else {
        escape_char(s[0]) + escape(s.drop_first())
    }
}

pub proof fn lemma_escape_push(s: Seq<char>, c: char)
    ensures
        escape(s.push(c)) == escape(s) + escape_char(c),
    decreases s.len(),
{
    if s.len() == 0 {
        assert(s.push(c).drop_first() =~= Seq::<char>::empty());
        assert(s.push(c)[0] == c);
        assert(escape(Seq::<char>::empty()) =~= Seq::<char>::empty());
        assert(escape(s) =~= Seq::<char>::empty());
        assert(escape(s.push(c)) =~= escape(s) + escape_char(c));
    } else {
        assert(s.push(c).drop_first() =~= s.drop_first().push(c));
        lemma_escape_push(s.drop_first(), c);
        assert(escape(s.push(c)) =~= escape(s) + escape_char(c));
    }
}

/// The text an AppleScript string literal's contents stand for: a backslash
/// takes the next character as it is.
pub open spec fn unescape(s: Seq<char>) -> Seq<char>
    decreases s.len(),
{
    if s.len() == 0 {
        seq![]
    } else if s[0] == '\\' && s.len() >= 2 {
        seq![s[1]] + unescape(s.subrange(2, s.len() as int))
    } else {
        seq![s[0]] + unescape(s.drop_first())
    }
}

/// The AppleScript that runs `command` in a shell with administrator rights.
pub open spec fn sudo_script_text(command: Seq<char>) -> Seq<char> {
    "do shell script \""@ + escape(command) + "\" with administrator privileges"@
}

/// The error a failed privileged command becomes: a cancelled password prompt
/// (its message mentions `User canceled` or `(-128)`) is `PermissionDenied`,
/// anything else as for other commands.
pub open spec fn sudo_error_of(e: ExecError) -> VpnError {
    match vpn_error_of(e) {
        VpnError::CliError(m) => if contains(m@, "User canceled"@) || contains(m@, "(-128)"@) {
            VpnError::PermissionDenied
        } else {
            VpnError::CliError(m)
        },
        other => other,
    }
}

/// Escapes `command` for an AppleScript string literal.
pub fn escape_command(command: &str) -> (s: String)
    ensures
        s@ == escape(command@),
{
    let chars = chars_of(command);
    let mut s = String::new();
    let mut i: usize = 0;
    proof {
        assert(chars@.take(0) =~= Seq::<char>::empty());
    }
    while i < chars.len()
        invariant
            i <= chars@.len(),
            chars@ == command@,
            s@ == escape(chars@.take(i as int)),
        decreases chars@.len() - i,
    {
        let c = chars[i];
        proof {
            assert(chars@.take(i + 1).drop_last() =~= chars@.take(i as int));
            assert(chars@.take(i + 1).last() == c);
        }
        if c == '\\' {
            s.push('\\');
            s.push('\\');
        } else if c == '"' {
            s.push('\\');
            s.push('"');
        } else {
            s.push(c);
        }
        proof {
            lemma_escape_push(chars@.take(i as int), c);
            assert(chars@.take(i + 1) =~= chars@.take(i as int).push(c));
            assert(s@ =~= escape(chars@.take(i as int)) + escape_char(c));
        }
        i = i + 1;
    }
    proof {
        assert(chars@.take(chars@.len() as int) =~= chars@);
    }
    s
}

/// Escaping loses nothing: the AppleScript literal stands for the command itself.
pub proof fn lemma_unescape_escape(s: Seq<char>)
    ensures
        unescape(escape(s)) == s,
    decreases s.len(),
{
    if s.len() > 0 {
        let e = escape_char(s[0]);
        let rest = escape(s.drop_first());
        lemma_unescape_escape(s.drop_first());
        if s[0] == '\\' || s[0] == '"' {
            assert((e + rest).subrange(2, (e + rest).len() as int) =~= rest);
            assert((e + rest)[0] == '\\' && (e + rest)[1] == s[0]);
        } else {
            assert((e + rest).drop_first() =~= rest);
            assert((e + rest)[0] == s[0]);
        }
        assert(unescape(escape(s)) =~= seq![s[0]] + s.drop_first());
        assert(seq![s[0]] + s.drop_first() =~= s);
    }
}

/// The first of `files` whose stem is `stem`.
pub open spec fn first_with_stem(files: Seq<String>, stem: Seq<char>) -> Option<Seq<char>>
    decreases files.len(),
{
    if files.len() == 0 {
        None
    } else if path_file_stem(files[0]@) == Some(stem) {
        Some(files[0]@)
    } else {
        first_with_stem(files.drop_first(), stem)
    }
}

/// The configuration file reported for an interface is a file whose stem is
/// the interface, the first such among `files`; there is none exactly when no
/// file has that stem.
pub proof fn law_first_with_stem(files: Seq<String>, stem: Seq<char>)
    ensures
        match first_with_stem(files, stem) {
            Some(f) => exists|i: int|
                0 <= i < files.len() && (#[trigger] files[i])@ == f && path_file_stem(f) == Some(stem) && forall|j: int|
                    0 <= j < i ==> path_file_stem((#[trigger] files[j])@) != Some(stem),
            None => forall|i: int| 0 <= i < files.len() ==> path_file_stem((#[trigger] files[i])@) != Some(stem),
        },
    decreases files.len(),
{
    if files.len() > 0 {
        let rest = files.drop_first();
        law_first_with_stem(rest, stem);
        if path_file_stem(files[0]@) == Some(stem) {
            assert(files[0]@ == files[0]@);
        } else {
            match first_with_stem(rest, stem) {
                Some(f) => {
                    let i = choose|i: int|
                        0 <= i < rest.len() && (#[trigger] rest[i])@ == f && path_file_stem(f) == Some(stem) && forall|j: int|
                            0 <= j < i ==> path_file_stem((#[trigger] rest[j])@) != Some(stem);
                    assert(files[i + 1] == rest[i]);
                    assert forall|j: int| 0 <= j < i + 1 implies path_file_stem((#[trigger] files[j])@) != Some(stem) by {
                        if j > 0 {
                            assert(files[j] == rest[j - 1]);
                        }
                    }
                },
                None => {
                    assert forall|i: int| 0 <= i < files.len() implies path_file_stem((#[trigger] files[i])@) != Some(stem) by {
                        if i > 0 {
                            assert(files[i] == rest[i - 1]);
                        }
                    }
                },
            }
        }
    }
}

/// Index of the first line whose trimmed text starts with `p`.
fn first_trimmed_line(chars: &Vec<char>, spans: &Vec<(usize, usize)>, p: &Vec<char>) -> (r: Option<usize>)
    requires
        crate::text::spans_of_lines(chars@, spans@),
    ensures
        match r {
            Some(k) => k < spans@.len() && first_trimmed_with_prefix(lines(chars@), p@) == Some(lines(chars@)[k as int]),
            None => first_trimmed_with_prefix(lines(chars@), p@) is None,
        },
{
    let ghost ls = lines(chars@);
    let mut k: usize = 0;
    assert(ls.subrange(0, ls.len() as int) =~= ls);
    while k < spans.len()
        invariant
            ls == lines(chars@),
            crate::text::spans_of_lines(chars@, spans@),
            k <= spans@.len(),
            first_trimmed_with_prefix(ls, p@) == first_trimmed_with_prefix(ls.subrange(k as int, ls.len() as int), p@),
        decreases spans@.len() - k,
    {
        let (lo, hi) = spans[k];
        proof {
            let rest = ls.subrange(k as int, ls.len() as int);
            assert(rest[0] == ls[k as int]);
            assert(rest.drop_first() =~= ls.subrange(k + 1, ls.len() as int));
        }
        let (a, b) = trim_bounds(chars, lo, hi);
        if range_starts_with(chars, a, b, p) {
            return Some(k);
        }
        k = k + 1;
    }
    assert(ls.subrange(k as int, ls.len() as int) =~= Seq::<Seq<char>>::empty());
    None
}

pub proof fn lemma_wg_scan_blank(ls: Seq<Seq<char>>, interface: Seq<char>)
    requires
        forall|k: int| 0 <= k < ls.len() ==> crate::text::all_ws(#[trigger] ls[k]),
    ensures
        wg_scan(ls, interface) == (false, Map::<Seq<char>, Seq<char>>::empty().insert("interface"@, interface)),
    decreases ls.len(),
{
    if ls.len() > 0 {
        lemma_wg_scan_blank(ls.drop_last(), interface);
        let t = trim(ls.last());
        crate::text::lemma_trim_empty(ls.last());
        assert(ls.last() == ls[ls.len() - 1]);
        assert(t.len() == 0);
        reveal_strlit("endpoint:");
        reveal_strlit("latest handshake:");
        reveal_strlit("transfer:");
        reveal_strlit("peer:");
    }
}

/// Blank output (nothing but whitespace, as from an interface with no peers
/// section) reads as disconnected, with only the interface among the extra
/// fields.
pub proof fn law_blank_output_disconnected(output: Seq<char>, interface: Seq<char>)
    requires
        trim(output).len() == 0,
    ensures
        wg_scan(lines(output), interface) == (false, Map::<Seq<char>, Seq<char>>::empty().insert("interface"@, interface)),
{
    crate::text::lemma_trim_empty(output);
    crate::text::lemma_lines_all_ws(output, 0);
    lemma_wg_scan_blank(lines(output), interface);
}

impl WireGuardProvider {
    /// The provider for interface `wg0`.
    pub fn new() -> (p: Self)
        ensures
            p.interface@ == "wg0"@,
    {
        WireGuardProvider { interface: owned("wg0") }
    }

    /// The provider for `interface`.
    pub fn with_interface(interface: &str) -> (p: Self)
        ensures
            p.interface@ == interface@,
    {
        WireGuardProvider { interface: owned(interface) }
    }

    /// The provider's name.
    pub fn name(&self) -> (s: &'static str)
        ensures
            s@ == "WireGuard"@,
    {
        "WireGuard"
    }

    /// The AppleScript that runs `command` with administrator rights.
    pub fn sudo_script(command: &str) -> (s: String)
        ensures
            s@ == sudo_script_text(command@),
    {
        let mut s = owned("do shell script \"");
        let escaped = escape_command(command);
        append_str(&mut s, escaped.as_str());
        append_str(&mut s, "\" with administrator privileges");
        s
    }

    /// The error a failed privileged command becomes.
    pub fn sudo_error(e: ExecError) -> (r: VpnError)
        ensures
            r == sudo_error_of(e),
    {
        let err = VpnError::from(e);
        match err {
            VpnError::CliError(m) => {
                let chars = chars_of(m.as_str());
                let canceled = chars_of("User canceled");
                let code = chars_of("(-128)");
                proof {
                    assert(chars@.subrange(0, chars@.len() as int) =~= chars@);
                }
                if range_contains(&chars, 0, chars.len(), &canceled) || range_contains(&chars, 0, chars.len(), &code) {
                    VpnError::PermissionDenied
                } else {
                    VpnError::CliError(m)
                }
            },
            other => other,
        }
    }

    /// The shell command that brings the tunnel up: `wg-quick up <interface>`.
    pub fn up_command(&self) -> (s: String)
        ensures
            s@ == "wg-quick up "@ + self.interface@,
    {
        let mut s = owned("wg-quick up ");
        append_str(&mut s, self.interface.as_str());
        s
    }

    /// The shell command that takes the tunnel down: `wg-quick down <interface>`.
    pub fn down_command(&self) -> (s: String)
        ensures
            s@ == "wg-quick down "@ + self.interface@,
    {
        let mut s = owned("wg-quick down ");
        append_str(&mut s, self.interface.as_str());
        s
    }

    /// The status `ifconfig <interface>` shows: up as `ifconfig_up` says, with the
    /// address of its `inet` line. No output (the interface does not exist)
    /// means not connected.
    pub fn status_from_ifconfig(&self, output: Option<&str>) -> (st: VpnStatus)
        ensures
            st.provider@ == "WireGuard"@,
            st.since is None,
            st.latency_ms is None,
            text_map(st.extra@) == Map::<Seq<char>, Seq<char>>::empty().insert("interface"@, self.interface@),
            match output {
                Some(out) => st.connected == ifconfig_up(out@) && opt_text(st.ip) == ifconfig_ip(out@),
                None => !st.connected && st.ip is None,
            },
    {
        let mut extra: StrMap<String> = StrMap::new();
        let iface = self.interface.clone();
        proof {
            lemma_text_map_empty();
            lemma_text_map_insert(extra@, "interface"@, iface);
        }
        extra.insert(owned("interface"), iface);
        match output {
            Some(out) => {
                let chars = chars_of(out);
                let n = chars.len();
                proof {
                    assert(chars@.subrange(0, n as int) =~= chars@);
                }
                let connected = range_contains(&chars, 0, n, &chars_of("status: active"))
                    || (range_contains(&chars, 0, n, &chars_of("UP")) && range_contains(&chars, 0, n, &chars_of("RUNNING")));
                let spans = line_spans(&chars);
                let inet = chars_of("inet ");
                let ip = match first_trimmed_line(&chars, &spans, &inet) {
                    Some(k) => {
                        let (lo, hi) = spans[k];
                        match nth_token(&chars, lo, hi, 1) {
                            Some((a, b)) => Some(string_of(&chars, a, b)),
                            None => None,
                        }
                    },
                    None => None,
                };
                VpnStatus { provider: owned("WireGuard"), connected, ip, since: None, latency_ms: None, extra }
            },
            None => VpnStatus { provider: owned("WireGuard"), connected: false, ip: None, since: None, latency_ms: None, extra },
        }
    }

    /// The configuration reported: the first of the known configuration files
    /// whose stem is the interface, else `/etc/wireguard/<interface>.conf`.
    pub fn get_config(&self, config_files: &Vec<String>) -> (c: ProviderConfig)
        ensures
            c matches ProviderConfig::WireGuard { config_file, interface } && interface == self.interface
                && config_file@ == match first_with_stem(config_files@, self.interface@) {
                    Some(f) => f,
                    None => "/etc/wireguard/"@ + self.interface@ + ".conf"@,
                },
    {
        let mut i: usize = 0;
        proof {
            assert(config_files@.subrange(0, config_files@.len() as int) =~= config_files@);
        }
        while i < config_files.len()
            invariant
                i <= config_files@.len(),
                first_with_stem(config_files@, self.interface@) == first_with_stem(config_files@.subrange(i as int, config_files@.len() as int), self.interface@),
            decreases config_files@.len() - i,
        {
            proof {
                let rest = config_files@.subrange(i as int, config_files@.len() as int);
                assert(rest[0] == config_files@[i as int]);
                assert(rest.drop_first() =~= config_files@.subrange(i + 1, config_files@.len() as int));
            }
            let matches = match file_stem(config_files[i].as_str()) {
                Some(stem) => str_eq(stem.as_str(), self.interface.as_str()),
                None => false,
            };
            if matches {
                return ProviderConfig::WireGuard { config_file: config_files[i].clone(), interface: self.interface.clone() };
            }
            i = i + 1;
        }
        proof {
            assert(config_files@.subrange(i as int, config_files@.len() as int) =~= Seq::<String>::empty());
        }
        let mut path = owned("/etc/wireguard/");
        append_str(&mut path, self.interface.as_str());
        append_str(&mut path, ".conf");
        ProviderConfig::WireGuard { config_file: path, interface: self.interface.clone() }
    }

    /// Takes the interface of a WireGuard configuration; other configurations
    /// change nothing.
    pub fn adopt_config(&mut self, config: &ProviderConfig)
        ensures
            match config {
                ProviderConfig::WireGuard { interface, .. } => final(self).interface == *interface,
                _ => *final(self) == *old(self),
            },
    {
        match config {
            ProviderConfig::WireGuard { interface, .. } => {
                self.interface = interface.clone();
            },
            _ => {},
        }
    }

    /// Reads the output of `wg show <interface>`. The tunnel counts as connected
    /// when the output has a peer section; the endpoint, latest handshake and
    /// transfer counters of the peers are kept, a later line overriding an
    /// earlier one. Never fails.
    pub fn parse_status(output: &str, interface: &str) -> (r: Result<VpnStatus, VpnError>)
        ensures
            match r {
                Ok(st) => {
                    &&& st.provider@ == "WireGuard"@
                    &&& st.connected == wg_scan(lines(output@), interface@).0
                    &&& st.ip is None
                    &&& st.since is None
                    &&& st.latency_ms is None
                    &&& text_map(st.extra@) == wg_scan(lines(output@), interface@).1
                },
                Err(_) => false,
            },
    {
        let chars = chars_of(output);
        let spans = line_spans(&chars);
        let ghost ls = lines(chars@);
        let endpoint = chars_of("endpoint:");
        let handshake = chars_of("latest handshake:");
        let transfer = chars_of("transfer:");
        let peer = chars_of("peer:");
        let mut extra: StrMap<String> = StrMap::new();
        let iface = owned(interface);
        proof {
            lemma_text_map_empty();
            lemma_text_map_insert(Map::empty(), "interface"@, iface);
        }
        extra.insert(owned("interface"), iface);
        proof {
            assert(ls.take(0) =~= Seq::<Seq<char>>::empty());
        }
        let mut has_peer = false;
        let mut k: usize = 0;
        while k < spans.len()
            invariant
                ls == lines(chars@),
                spans@.len() == ls.len(),
                forall|j: int|
                    0 <= j < spans@.len() ==> {
                        &&& (#[trigger] spans@[j]).0 <= spans@[j].1 <= chars@.len()
                        &&& chars@.subrange(spans@[j].0 as int, spans@[j].1 as int) == ls[j]
                    },
                endpoint@ == "endpoint:"@,
                handshake@ == "latest handshake:"@,
                transfer@ == "transfer:"@,
                peer@ == "peer:"@,
                k <= spans@.len(),
                has_peer == wg_scan(ls.take(k as int), interface@).0,
                text_map(extra@) == wg_scan(ls.take(k as int), interface@).1,
            decreases spans@.len() - k,
        {
            let (lo, hi) = spans[k];
            let ghost line = ls[k as int];
            let ghost before = wg_scan(ls.take(k as int), interface@);
            proof {
                assert(ls.take(k + 1).drop_last() =~= ls.take(k as int));
                assert(ls.take(k + 1).last() == line);
            }
            let (a, b) = trim_bounds(&chars, lo, hi);
            let ghost t = chars@.subrange(a as int, b as int);
            if range_starts_with(&chars, a, b, &endpoint) {
                let a2 = strip_prefixes_from(&chars, a, b, &endpoint);
                let (va, vb) = trim_bounds(&chars, a2, b);
                let value = string_of(&chars, va, vb);
                proof {
                    lemma_text_map_insert(extra@, "endpoint"@, value);
                }
                extra.insert(owned("endpoint"), value);
                has_peer = true;
            } else if range_starts_with(&chars, a, b, &handshake) {
                let a2 = strip_prefixes_from(&chars, a, b, &handshake);
                let (va, vb) = trim_bounds(&chars, a2, b);
                let value = string_of(&chars, va, vb);
                proof {
                    lemma_text_map_insert(extra@, "latest_handshake"@, value);
                }
                extra.insert(owned("latest_handshake"), value);
                has_peer = true;
            } else if range_starts_with(&chars, a, b, &transfer) {
                let a2 = strip_prefixes_from(&chars, a, b, &transfer);
                let (va, vb) = trim_bounds(&chars, a2, b);
                let ghost v = chars@.subrange(va as int, vb as int);
                match find_char(&chars, va, vb, ',') {
                    Some(c) => {
                        let (ra, rb) = trim_bounds(&chars, va, c);
                        let (ta, tb) = trim_bounds(&chars, c + 1, vb);
                        let rx = string_of(&chars, ra, rb);
                        let tx = string_of(&chars, ta, tb);
                        proof {
                            assert(v.subrange(0, c - va) =~= chars@.subrange(va as int, c as int));
                            assert(v.subrange(c - va + 1, v.len() as int) =~= chars@.subrange(c + 1, vb as int));
                            lemma_text_map_insert(extra@, "transfer_rx"@, rx);
                            lemma_text_map_insert(extra@.insert("transfer_rx"@, rx), "transfer_tx"@, tx);
                        }
                        extra.insert(owned("transfer_rx"), rx);
                        extra.insert(owned("transfer_tx"), tx);
                    },
                    None => {},
                }
                has_peer = true;
            } else if range_starts_with(&chars, a, b, &peer) {
                has_peer = true;
            }
            k = k + 1;
        }
        proof {
            assert(ls.take(spans@.len() as int) =~= ls);
        }
        Ok(
            VpnStatus {
                provider: owned("WireGuard"),
                connected: has_peer,
                ip: None,
                since: None,
                latency_ms: None,
                extra,
            },
        )
    }
}

} // verus!
