use conduit::util::detect::{search_next, search_start, which_answer, ProbeAnswer, SearchState, SearchStep, ToolProbe};
use std::path::Path;

/// Stands in for `which` here, where no process may be started: the
/// directories a default `PATH` holds.
fn which_here(tool: &str) -> Option<String> {
    for dir in ["/usr/local/bin", "/usr/bin", "/bin", "/usr/sbin", "/sbin"] {
        let candidate = format!("{}/{}", dir, tool);
        if Path::new(&candidate).exists() {
            return Some(candidate);
        }
    }
    None
}

/// Runs a tool search, answering its probes from this machine.
fn find_tool(tool_name: &str) -> Option<String> {
    let mut step = search_start(tool_name);
    loop {
        match step {
            SearchStep::Found(result) => return result,
            SearchStep::Probe(state, probe) => {
                let answer = match probe {
                    ToolProbe::PathExists(p) => ProbeAnswer::Exists(Path::new(&p).exists()),
                    ToolProbe::Which(t) => ProbeAnswer::WhichPath(which_here(&t)),
                };
                step = search_next(tool_name, state, answer);
            }
        }
    }
}

fn is_tool_installed(tool_name: &str) -> bool {
    find_tool(tool_name).is_some()
}

#[test]
fn test_detect_existing_tool() {
    assert!(is_tool_installed("echo"));
}

#[test]
fn test_detect_missing_tool() {
    assert!(!is_tool_installed("nonexistent_tool_xyz_123"));
}

#[test]
fn test_find_tool_existing() {
    let path = find_tool("echo");
    assert!(path.is_some());
    assert!(path.unwrap().contains("echo"));
}

#[test]
fn test_find_tool_missing() {
    assert!(find_tool("nonexistent_tool_xyz_123").is_none());
}

#[test]
fn test_find_tool_absolute_path() {
    assert!(find_tool("/bin/ls").is_some());
    assert!(find_tool("/nonexistent/path/tool").is_none());
}

#[test]
fn absolute_path_is_only_checked_for_existence() {
    match search_start("/usr/bin/tool") {
        SearchStep::Probe(SearchState::CheckAbsolute, ToolProbe::PathExists(p)) => assert_eq!(p, "/usr/bin/tool"),
        _ => panic!("an absolute path must be checked directly"),
    }
    match search_next("/usr/bin/tool", SearchState::CheckAbsolute, ProbeAnswer::Exists(true)) {
        SearchStep::Found(Some(p)) => assert_eq!(p, "/usr/bin/tool"),
        _ => panic!("an existing absolute path is the result"),
    }
    match search_next("/usr/bin/tool", SearchState::CheckAbsolute, ProbeAnswer::Exists(false)) {
        SearchStep::Found(None) => {}
        _ => panic!("a missing absolute path is no result"),
    }
}

#[test]
fn relative_name_tries_which_then_install_locations() {
    match search_start("wg") {
        SearchStep::Probe(SearchState::AskWhich, ToolProbe::Which(t)) => assert_eq!(t, "wg"),
        _ => panic!("a name is looked up with which first"),
    }
    match search_next("wg", SearchState::AskWhich, ProbeAnswer::WhichPath(Some("/usr/bin/wg".to_string()))) {
        SearchStep::Found(Some(p)) => assert_eq!(p, "/usr/bin/wg"),
        _ => panic!("a which hit is the result"),
    }
    let expected = ["/usr/local/bin/wg", "/opt/homebrew/bin/wg", "/opt/homebrew/sbin/wg"];
    let mut step = search_next("wg", SearchState::AskWhich, ProbeAnswer::WhichPath(None));
    for (k, want) in expected.iter().enumerate() {
        match step {
            SearchStep::Probe(SearchState::CheckExtra(j), ToolProbe::PathExists(p)) => {
                assert_eq!(j, k);
                assert_eq!(&p, want);
                step = search_next("wg", SearchState::CheckExtra(j), ProbeAnswer::Exists(false));
            }
            _ => panic!("the install locations are tried in order"),
        }
    }
    assert!(matches!(step, SearchStep::Found(None)));
    match search_next("wg", SearchState::CheckExtra(1), ProbeAnswer::Exists(true)) {
        SearchStep::Found(Some(p)) => assert_eq!(p, "/opt/homebrew/bin/wg"),
        _ => panic!("an install location that has the tool is the result"),
    }
}

#[test]
fn which_output_is_trimmed_and_failures_give_nothing() {
    assert_eq!(which_answer(true, b"/usr/bin/echo\n".to_vec()), Some("/usr/bin/echo".to_string()));
    assert_eq!(which_answer(false, b"/usr/bin/echo\n".to_vec()), None);
    assert_eq!(which_answer(true, vec![0xff, 0xfe]), None);
}
