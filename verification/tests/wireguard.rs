use conduit::provider::wireguard::WireGuardProvider;
use conduit::provider::{ProviderConfig, VpnError};
use conduit::util::exec::ExecError;

#[test]
fn wireguard_test_parse_status_connected() {
    let output = "interface: wg0\n  \
                   public key: abc123=\n  \
                   private key: (hidden)\n  \
                   listening port: 51820\n\n\
                   peer: xyz789=\n  \
                   endpoint: 203.0.113.1:51820\n  \
                   allowed ips: 10.0.0.0/24\n  \
                   latest handshake: 1 minute, 30 seconds ago\n  \
                   transfer: 1.23 MiB received, 4.56 MiB sent";

    let status = WireGuardProvider::parse_status(output, "wg0").unwrap();
    assert!(status.connected);
    assert_eq!(status.provider, "WireGuard");
    assert_eq!(status.extra.get("interface").map(|s| s.as_str()), Some("wg0"));
    assert_eq!(status.extra.get("endpoint").map(|s| s.as_str()), Some("203.0.113.1:51820"));
    assert_eq!(status.extra.get("transfer_rx").map(|s| s.as_str()), Some("1.23 MiB received"));
    assert_eq!(status.extra.get("transfer_tx").map(|s| s.as_str()), Some("4.56 MiB sent"));
    assert_eq!(status.extra.get("latest_handshake").map(|s| s.as_str()), Some("1 minute, 30 seconds ago"));
}

#[test]
fn test_parse_status_no_peers() {
    let output = "interface: wg0\n  \
                   public key: abc123=\n  \
                   private key: (hidden)\n  \
                   listening port: 51820";

    let status = WireGuardProvider::parse_status(output, "wg0").unwrap();
    assert!(!status.connected);
    assert_eq!(status.extra.get("interface").map(|s| s.as_str()), Some("wg0"));
}

#[test]
fn wireguard_test_parse_status_empty() {
    let status = WireGuardProvider::parse_status("", "wg0").unwrap();
    assert!(!status.connected);
}

#[test]
fn wireguard_whitespace_output_keeps_only_the_interface() {
    let status = WireGuardProvider::parse_status(" \n\t\n  ", "utun3").unwrap();
    assert!(!status.connected);
    assert_eq!(status.extra.len(), 1);
    assert_eq!(status.extra.get("interface").map(|s| s.as_str()), Some("utun3"));
}

#[test]
fn wireguard_transfer_without_comma_still_counts_as_peer() {
    let status = WireGuardProvider::parse_status("  transfer: 12 KiB", "wg1").unwrap();
    assert!(status.connected);
    assert!(status.extra.get("transfer_rx").is_none());
    let status = WireGuardProvider::parse_status("endpoint:endpoint: 1.2.3.4:1", "wg1").unwrap();
    assert_eq!(status.extra.get("endpoint").map(|s| s.as_str()), Some("1.2.3.4:1"));
}

#[test]
fn wireguard_providers_and_commands() {
    let p = WireGuardProvider::new();
    assert_eq!(p.interface, "wg0");
    assert_eq!(p.name(), "WireGuard");
    let q = WireGuardProvider::with_interface("office");
    assert_eq!(q.up_command(), "wg-quick up office");
    assert_eq!(q.down_command(), "wg-quick down office");
}

#[test]
fn wireguard_sudo_script_escapes_the_command() {
    let script = WireGuardProvider::sudo_script(r#"echo "a\b""#);
    assert_eq!(script, r#"do shell script "echo \"a\\b\"" with administrator privileges"#);
    assert_eq!(
        WireGuardProvider::sudo_script("wg-quick up wg0"),
        "do shell script \"wg-quick up wg0\" with administrator privileges"
    );
}

#[test]
fn wireguard_sudo_errors() {
    let cancelled = ExecError::NonZeroExit { code: Some(1), stderr: "execution error: User canceled. (-128)".to_string() };
    assert!(matches!(WireGuardProvider::sudo_error(cancelled), VpnError::PermissionDenied));
    let code_only = ExecError::IoError("failed (-128)".to_string());
    assert!(matches!(WireGuardProvider::sudo_error(code_only), VpnError::PermissionDenied));
    let other = ExecError::NonZeroExit { code: Some(1), stderr: "no such interface".to_string() };
    match WireGuardProvider::sudo_error(other) {
        VpnError::CliError(m) => assert_eq!(m, "no such interface"),
        e => panic!("expected a CLI error, got {:?}", e),
    }
    assert!(matches!(WireGuardProvider::sudo_error(ExecError::Timeout), VpnError::Timeout));
}

#[test]
fn wireguard_ifconfig_status() {
    let p = WireGuardProvider::with_interface("utun4");
    let output = "utun4: flags=8051<UP,POINTOPOINT,RUNNING,MULTICAST> mtu 1420\n\tinet 10.8.0.2 --> 10.8.0.2 netmask 0xffffff00\n";
    let status = p.status_from_ifconfig(Some(output));
    assert!(status.connected);
    assert_eq!(status.ip.as_deref(), Some("10.8.0.2"));
    assert_eq!(status.extra.get("interface").map(|s| s.as_str()), Some("utun4"));
    let status = p.status_from_ifconfig(Some("utun4: flags=8010<POINTOPOINT,MULTICAST>\n\tstatus: inactive"));
    assert!(!status.connected);
    assert!(status.ip.is_none());
    // A line that trims to a bare "inet" is passed over.
    let status = p.status_from_ifconfig(Some("status: active\n  inet \n inet 1.1.1.1 x"));
    assert!(status.connected);
    assert_eq!(status.ip.as_deref(), Some("1.1.1.1"));
    let status = p.status_from_ifconfig(None);
    assert!(!status.connected);
    assert_eq!(status.provider, "WireGuard");
}

#[test]
fn wireguard_config_file_and_interface() {
    let p = WireGuardProvider::with_interface("home");
    let files = vec!["/etc/wireguard/work.conf".to_string(), "/opt/homebrew/etc/wireguard/home.conf".to_string()];
    match p.get_config(&files) {
        ProviderConfig::WireGuard { config_file, interface } => {
            assert_eq!(config_file, "/opt/homebrew/etc/wireguard/home.conf");
            assert_eq!(interface, "home");
        }
        _ => panic!("WireGuard reports a WireGuard configuration"),
    }
    match p.get_config(&vec![]) {
        ProviderConfig::WireGuard { config_file, .. } => assert_eq!(config_file, "/etc/wireguard/home.conf"),
        _ => panic!("WireGuard reports a WireGuard configuration"),
    }
    let mut q = WireGuardProvider::new();
    q.adopt_config(&ProviderConfig::WireGuard { config_file: "/x/office.conf".to_string(), interface: "office".to_string() });
    assert_eq!(q.interface, "office");
    q.adopt_config(&ProviderConfig::Warp { mode: conduit::provider::WarpMode::Warp, families_mode: false });
    assert_eq!(q.interface, "office");
}
