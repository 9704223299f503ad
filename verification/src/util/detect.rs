//! Finding a command-line tool: the decisions of the search, one probe at a time.
//! The caller performs each probe (a file-existence check or a `which` lookup)
//! and hands back its answer.
use vstd::prelude::*;

use crate::provider::opt_text;
use crate::text::{append_str, chars_of, owned, string_from_utf8, string_of, trim, trim_bounds};

verus! {

broadcast use vstd::string::group_string_axioms;

/// Common macOS install locations that an app's default `PATH` leaves out.
pub const EXTRA_PATHS: [&'static str; 3] = ["/usr/local/bin", "/opt/homebrew/bin", "/opt/homebrew/sbin"];

/// The install locations, as text.
pub open spec fn extra_path(k: int) -> Seq<char> {
    if k == 0 {
        "/usr/local/bin"@
    } else if k == 1 {
        "/opt/homebrew/bin"@
    } else {
        "/opt/homebrew/sbin"@
    }
}

/// The path of `tool` in the install location `k`.
pub open spec fn candidate(k: int, tool: Seq<char>) -> Seq<char> {
    extra_path(k) + "/"@ + tool
}

/// Where a search stands: what its last probe asked.
#[derive(Debug, Clone, Copy, PartialEq, Eq, Structural)]
pub enum SearchState {
    /// Whether the absolute path given as the tool exists.
    CheckAbsolute,
    /// Where `which` finds the tool.
    AskWhich,
    /// Whether the tool exists in install location `k`.
    CheckExtra(usize),
}

/// A probe the caller performs.
#[derive(Debug, Clone)]
pub enum ToolProbe {
    /// Does this path exist?
    PathExists(String),
    /// Where does `which` find this tool? (Its trimmed output on success.)
    Which(String),
}

/// The answer to a probe.
#[derive(Debug, Clone)]
pub enum ProbeAnswer {
    Exists(bool),
    WhichPath(Option<String>),
}

/// What the search does next: probe, or stop with the tool's path (or none).
#[derive(Debug, Clone)]
pub enum SearchStep {
    Probe(SearchState, ToolProbe),
    Found(Option<String>),
}

/// `answer` is the kind of answer the probe of `state` expects.
pub open spec fn answers(state: SearchState, answer: ProbeAnswer) -> bool {
    match state {
        SearchState::AskWhich => answer is WhichPath,
        _ => answer is Exists,
    }
}

/// The step that probes install location `k` for `tool`, or gives up after the last.
pub open spec fn extra_step(k: int, tool: Seq<char>, step: SearchStep) -> bool {
    if k < 3 {
        step matches SearchStep::Probe(SearchState::CheckExtra(j), ToolProbe::PathExists(p)) && j == k && p@ == candidate(k, tool)
    } else {
        step matches SearchStep::Found(None)
    }
}

fn extra_probe(k: usize, tool: &str) -> (step: SearchStep)
    ensures
        extra_step(k as int, tool@, step),
{
    if k >= 3 {
        return SearchStep::Found(None);
    }
    let mut p = owned(EXTRA_PATHS[k]);
    append_str(&mut p, "/");
    append_str(&mut p, tool);
    proof {
        assert(EXTRA_PATHS[k as int]@ == extra_path(k as int));
    }
    SearchStep::Probe(SearchState::CheckExtra(k), ToolProbe::PathExists(p))
}

/// How a search for `tool_name` starts: a name that starts with `/` is a path
/// and is only checked for existence; any other name is first looked up with
/// `which`.
pub fn search_start(tool_name: &str) -> (step: SearchStep)
    ensures
        if tool_name@.len() > 0 && tool_name@[0] == '/' {
            step matches SearchStep::Probe(SearchState::CheckAbsolute, ToolProbe::PathExists(p)) && p@ == tool_name@
        } else {
            step matches SearchStep::Probe(SearchState::AskWhich, ToolProbe::Which(t)) && t@ == tool_name@
        },
{
    let chars = chars_of(tool_name);
    if chars.len() > 0 && chars[0] == '/' {
        SearchStep::Probe(SearchState::CheckAbsolute, ToolProbe::PathExists(owned(tool_name)))
    } else {
        SearchStep::Probe(SearchState::AskWhich, ToolProbe::Which(owned(tool_name)))
    }
}

/// The step after `answer` to the probe of `state`: an absolute path is found
/// exactly when it exists; a `which` hit is the result; otherwise the install
/// locations are tried in order, the first that has the tool being the result.
pub fn search_next(tool_name: &str, state: SearchState, answer: ProbeAnswer) -> (step: SearchStep)
    requires
        answers(state, answer),
        state matches SearchState::CheckExtra(k) ==> k < 3,
    ensures
        match (state, answer) {
            (SearchState::CheckAbsolute, ProbeAnswer::Exists(b)) => step matches SearchStep::Found(r)
                && opt_text(r) == (if b { Some(tool_name@) } else { None }),
            (SearchState::AskWhich, ProbeAnswer::WhichPath(Some(p))) => step matches SearchStep::Found(Some(r)) && r == p,
            (SearchState::AskWhich, ProbeAnswer::WhichPath(None)) => extra_step(0, tool_name@, step),
            (SearchState::CheckExtra(k), ProbeAnswer::Exists(true)) => step matches SearchStep::Found(Some(r))
                && r@ == candidate(k as int, tool_name@),
            (SearchState::CheckExtra(k), ProbeAnswer::Exists(false)) => extra_step(k + 1, tool_name@, step),
            _ => false,
        },
{
    match (state, answer) {
        (SearchState::CheckAbsolute, ProbeAnswer::Exists(b)) => {
            if b {
                SearchStep::Found(Some(owned(tool_name)))
            } else {
                SearchStep::Found(None)
            }
        },
        (SearchState::AskWhich, ProbeAnswer::WhichPath(Some(p))) => SearchStep::Found(Some(p)),
        (SearchState::AskWhich, ProbeAnswer::WhichPath(None)) => extra_probe(0, tool_name),
        (SearchState::CheckExtra(k), ProbeAnswer::Exists(true)) => {
            let mut p = owned(EXTRA_PATHS[k]);
            append_str(&mut p, "/");
            append_str(&mut p, tool_name);
            proof {
                assert(EXTRA_PATHS[k as int]@ == extra_path(k as int));
            }
            SearchStep::Found(Some(p))
        },
        (SearchState::CheckExtra(k), ProbeAnswer::Exists(false)) => extra_probe(k + 1, tool_name),
        _ => SearchStep::Found(None),
    }
}

/// The answer a `which` run gives: on success its output as UTF-8 text,
/// trimmed; nothing when it failed or its output is not UTF-8.
pub fn which_answer(success: bool, stdout: Vec<u8>) -> (r: Option<String>)
    ensures
        success && vstd::utf8::valid_utf8(stdout@) ==> (r matches Some(s) && s@ == trim(vstd::utf8::decode_utf8(stdout@))),
        !(success && vstd::utf8::valid_utf8(stdout@)) ==> r is None,
{
    if !success {
        return None;
    }
    match string_from_utf8(stdout) {
        Ok(s) => {
            let chars = chars_of(s.as_str());
            let (a, b) = trim_bounds(&chars, 0, chars.len());
            proof {
                assert(chars@.subrange(0, chars@.len() as int) =~= chars@);
            }
            Some(string_of(&chars, a, b))
        },
        Err(_) => None,
    }
}

} // verus!
