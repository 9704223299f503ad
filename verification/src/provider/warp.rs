//! Cloudflare WARP: the `warp-cli` tool.
use vstd::prelude::*;

use crate::provider::{lemma_text_map_empty, lemma_text_map_insert, text_map, ProviderConfig, VpnError, VpnStatus, WarpMode};
use crate::strmap::StrMap;
use crate::text::{after_prefix, chars_of, first_line_with_prefix, first_with_prefix, line_spans, lines, owned, range_eq, range_starts_with, starts_with, string_of, strip_prefixes, strip_prefixes_from, trim, trim_bounds};

verus! {

broadcast use vstd::string::group_string_axioms;

/// The name of the WARP command-line tool.
pub const TOOL_NAME: &'static str = "warp-cli";

/// Cloudflare WARP.
#[derive(Debug, Clone, Copy)]
pub struct WarpProvider;

/// The extra fields a line of `warp-cli status` output leaves: the mode after
/// `Mode:` and the DNS proxy setting after `DnsProxy:`.
pub open spec fn warp_line(m: Map<Seq<char>, Seq<char>>, line: Seq<char>) -> Map<Seq<char>, Seq<char>> {
    let m1 = if starts_with(line, "Mode:"@) {
        m.insert("warp_mode"@, trim(after_prefix(line, "Mode:"@)))
    } else {
        m
    };
    if starts_with(line, "DnsProxy:"@) {
        m1.insert("dns_proxy"@, trim(after_prefix(line, "DnsProxy:"@)))
    } else {
        m1
    }
}

/// The extra fields after reading the lines `ls`.
pub open spec fn warp_scan(ls: Seq<Seq<char>>) -> Map<Seq<char>, Seq<char>>
    decreases ls.len(),
{
    if ls.len() == 0 {
        Map::empty()
    } else {
        warp_line(warp_scan(ls.drop_last()), ls.last())
    }
}

/// The `warp-cli mode` argument for a mode.
pub open spec fn mode_arg_text(mode: WarpMode) -> Seq<char> {
    match mode {
        WarpMode::Warp => "warp"@,
        WarpMode::DnsOnly => "doh"@,
        WarpMode::Proxy => "proxy"@,
    }
}

impl WarpProvider {
    /// The WARP provider.
    pub fn new() -> (p: Self) {
        WarpProvider
    }

    /// The provider's name.
    pub fn name(&self) -> (s: &'static str)
        ensures
            s@ == "WARP"@,
    {
        "WARP"
    }

    /// Reads the output of `warp-cli status`. The first line that starts with
    /// `Status update:` decides the state: connected exactly when its value is
    /// `Connected`. Without such a line the output is a parse error. `Mode:` and
    /// `DnsProxy:` lines give the extra fields, a later line overriding an
    /// earlier one.
    pub fn parse_status(output: &str) -> (r: Result<VpnStatus, VpnError>)
        ensures
            match r {
                Ok(st) => {
                    &&& first_with_prefix(lines(output@), "Status update:"@) matches Some(l)
                        && st.connected == (trim(strip_prefixes(l, "Status update:"@)) == "Connected"@)
                    &&& st.provider@ == "WARP"@
                    &&& st.ip is None
                    &&& st.since is None
                    &&& st.latency_ms is None
                    &&& text_map(st.extra@) == warp_scan(lines(output@))
                },
                Err(e) => {
                    &&& first_with_prefix(lines(output@), "Status update:"@) is None
                    &&& e matches VpnError::ParseError(m) && m@ == "No status line found"@
                },
            },
    {
        let chars = chars_of(output);
        let spans = line_spans(&chars);
        let ghost ls = lines(chars@);
        let status_prefix = chars_of("Status update:");
        let mode_prefix = chars_of("Mode:");
        let dns_prefix = chars_of("DnsProxy:");
        let connected_word = chars_of("Connected");
        let (slo, shi) = match first_line_with_prefix(&chars, &spans, &status_prefix) {
            Some(k) => spans[k],
            None => {
                return Err(VpnError::ParseError(owned("No status line found")));
            },
        };
        let a = strip_prefixes_from(&chars, slo, shi, &status_prefix);
        let (va, vb) = trim_bounds(&chars, a, shi);
        let connected = range_eq(&chars, va, vb, &connected_word);
        let mut extra: StrMap<String> = StrMap::new();
        proof {
            lemma_text_map_empty();
            assert(ls.take(0) =~= Seq::<Seq<char>>::empty());
        }
        let mut j: usize = 0;
        while j < spans.len()
            invariant
                ls == lines(chars@),
                spans@.len() == ls.len(),
                forall|i: int|
                    0 <= i < spans@.len() ==> {
                        &&& (#[trigger] spans@[i]).0 <= spans@[i].1 <= chars@.len()
                        &&& chars@.subrange(spans@[i].0 as int, spans@[i].1 as int) == ls[i]
                    },
                mode_prefix@ == "Mode:"@,
                dns_prefix@ == "DnsProxy:"@,
                j <= spans@.len(),
                text_map(extra@) == warp_scan(ls.take(j as int)),
            decreases spans@.len() - j,
        {
            let (lo, hi) = spans[j];
            let ghost line = ls[j as int];
            proof {
                assert(ls.take(j + 1).drop_last() =~= ls.take(j as int));
                assert(ls.take(j + 1).last() == line);
            }
            if range_starts_with(&chars, lo, hi, &mode_prefix) {
                let (ma, mb) = trim_bounds(&chars, lo + mode_prefix.len(), hi);
                let value = string_of(&chars, ma, mb);
                proof {
                    assert(after_prefix(line, "Mode:"@) =~= chars@.subrange(lo + mode_prefix@.len(), hi as int));
                    lemma_text_map_insert(extra@, "warp_mode"@, value);
                }
                extra.insert(owned("warp_mode"), value);
            }
            if range_starts_with(&chars, lo, hi, &dns_prefix) {
                let (da, db) = trim_bounds(&chars, lo + dns_prefix.len(), hi);
                let value = string_of(&chars, da, db);
                proof {
                    assert(after_prefix(line, "DnsProxy:"@) =~= chars@.subrange(lo + dns_prefix@.len(), hi as int));
                    lemma_text_map_insert(extra@, "dns_proxy"@, value);
                }
                extra.insert(owned("dns_proxy"), value);
            }
            j = j + 1;
        }
        proof {
            assert(ls.take(spans@.len() as int) =~= ls);
        }
        Ok(
            VpnStatus {
                provider: owned("WARP"),
                connected,
                ip: None,
                since: None,
                latency_ms: None,
                extra,
            },
        )
    }

    /// The provider's settings as reported: WARP mode, families mode off.
    pub fn get_config(&self) -> (c: ProviderConfig)
        ensures
            c == (ProviderConfig::Warp { mode: WarpMode::Warp, families_mode: false }),
    {
        ProviderConfig::Warp { mode: WarpMode::Warp, families_mode: false }
    }

    /// The `warp-cli` argument lists that apply a configuration, in order: the
    /// mode, then the DNS families filter (`malware` or `off`). Nothing for a
    /// configuration of another provider.
    pub fn set_config_commands(config: &ProviderConfig) -> (r: Vec<Vec<String>>)
        ensures
            match config {
                ProviderConfig::Warp { mode, families_mode } => {
                    &&& r@.len() == 2
                    &&& r@[0]@.len() == 2 && r@[0]@[0]@ == "mode"@ && r@[0]@[1]@ == mode_arg_text(*mode)
                    &&& r@[1]@.len() == 3 && r@[1]@[0]@ == "dns"@ && r@[1]@[1]@ == "families"@
                    &&& r@[1]@[2]@ == (if *families_mode { "malware"@ } else { "off"@ })
                },
                _ => r@.len() == 0,
            },
    {
        match config {
            ProviderConfig::Warp { mode, families_mode } => {
                let mode_arg = match mode {
                    WarpMode::Warp => "warp",
                    WarpMode::DnsOnly => "doh",
                    WarpMode::Proxy => "proxy",
                };
                let families_arg = if *families_mode { "malware" } else { "off" };
                let mut first: Vec<String> = Vec::new();
                first.push(owned("mode"));
                first.push(owned(mode_arg));
                let mut second: Vec<String> = Vec::new();
                second.push(owned("dns"));
                second.push(owned("families"));
                second.push(owned(families_arg));
                let mut r: Vec<Vec<String>> = Vec::new();
                r.push(first);
                r.push(second);
                r
            },
            _ => Vec::new(),
        }
    }
}

} // verus!
