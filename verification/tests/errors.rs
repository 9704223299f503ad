use conduit::provider::{require_installed, VpnError};
use conduit::util::exec::{exec_outcome, ExecError};

#[test]
fn vpn_error_messages() {
    assert_eq!(VpnError::NotInstalled.message(), "VPN tool is not installed");
    assert_eq!(VpnError::CliError("boom".to_string()).message(), "CLI error: boom");
    assert_eq!(VpnError::ParseError("bad".to_string()).message(), "Parse error: bad");
    assert_eq!(VpnError::PermissionDenied.message(), "Permission denied");
    assert_eq!(VpnError::Timeout.message(), "Operation timed out");
}

#[test]
fn exec_error_messages() {
    assert_eq!(ExecError::Timeout.message(), "Command timed out");
    assert_eq!(ExecError::IoError("gone".to_string()).message(), "IO error: gone");
    assert_eq!(
        ExecError::NonZeroExit { code: Some(2), stderr: "oops".to_string() }.message(),
        "Exit code Some(2): oops"
    );
    assert_eq!(
        ExecError::NonZeroExit { code: Some(-1), stderr: String::new() }.message(),
        "Exit code Some(-1): "
    );
    assert_eq!(ExecError::NonZeroExit { code: None, stderr: "x".to_string() }.message(), "Exit code None: x");
}

#[test]
fn exec_errors_become_vpn_errors() {
    assert!(matches!(VpnError::from(ExecError::Timeout), VpnError::Timeout));
    match VpnError::from(ExecError::IoError("no such file".to_string())) {
        VpnError::CliError(m) => assert_eq!(m, "no such file"),
        e => panic!("unexpected {:?}", e),
    }
    match VpnError::from(ExecError::NonZeroExit { code: Some(1), stderr: "denied".to_string() }) {
        VpnError::CliError(m) => assert_eq!(m, "denied"),
        e => panic!("unexpected {:?}", e),
    }
}

#[test]
fn exec_outcomes() {
    match exec_outcome(true, Some(0), b"hello\n".to_vec(), b"") {
        Ok(s) => assert_eq!(s, "hello\n"),
        Err(e) => panic!("unexpected {:?}", e),
    }
    assert!(matches!(exec_outcome(true, Some(0), vec![0xc3, 0x28], b""), Err(ExecError::IoError(_))));
    match exec_outcome(false, Some(3), b"ignored".to_vec(), b"bad \xff input") {
        Err(ExecError::NonZeroExit { code, stderr }) => {
            assert_eq!(code, Some(3));
            assert_eq!(stderr, "bad \u{fffd} input");
        }
        other => panic!("unexpected {:?}", other),
    }
}

#[test]
fn missing_tool_is_not_installed() {
    assert!(require_installed(true).is_ok());
    assert!(matches!(require_installed(false), Err(VpnError::NotInstalled)));
}
