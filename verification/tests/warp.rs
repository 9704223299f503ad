use conduit::provider::warp::WarpProvider;
use conduit::provider::{ProviderConfig, VpnError, WarpMode};

#[test]
fn warp_test_parse_status_connected() {
    let output = "Status update: Connected\n\
                   DnsProxy: false\n\
                   Mode: Warp\n\
                   Reason: Manual Connection";

    let status = WarpProvider::parse_status(output).unwrap();
    assert!(status.connected);
    assert_eq!(status.provider, "WARP");
    assert_eq!(status.extra.get("warp_mode").map(|s| s.as_str()), Some("Warp"));
}

#[test]
fn warp_test_parse_status_disconnected() {
    let output = "Status update: Disconnected\n\
                   Reason: Manual Disconnection";

    let status = WarpProvider::parse_status(output).unwrap();
    assert!(!status.connected);
    assert_eq!(status.provider, "WARP");
}

#[test]
fn test_parse_status_connecting() {
    let output = "Status update: Connecting\n\
                   Reason: Registration";

    let status = WarpProvider::parse_status(output).unwrap();
    assert!(!status.connected);
}

#[test]
fn warp_test_parse_status_empty() {
    let result = WarpProvider::parse_status("");
    assert!(matches!(result, Err(VpnError::ParseError(_))));
}

#[test]
fn warp_missing_status_line_message() {
    match WarpProvider::parse_status("Mode: Warp\nReason: none") {
        Err(VpnError::ParseError(m)) => assert_eq!(m, "No status line found"),
        other => panic!("expected a parse error, got {:?}", other),
    }
}

#[test]
fn warp_first_status_line_decides_and_later_fields_win() {
    let output = "Reason: x\r\nStatus update:   Connected  \r\nStatus update: Disconnected\nDnsProxy:  true \nMode: Proxy\nMode: DoH\n";
    let status = WarpProvider::parse_status(output).unwrap();
    assert!(status.connected);
    assert_eq!(status.extra.get("dns_proxy").map(|s| s.as_str()), Some("true"));
    assert_eq!(status.extra.get("warp_mode").map(|s| s.as_str()), Some("DoH"));
    assert_eq!(status.extra.len(), 2);
    let indented = WarpProvider::parse_status("  Status update: Connected").map(|s| s.connected);
    assert!(matches!(indented, Err(VpnError::ParseError(_))));
}

#[test]
fn warp_config_commands() {
    let config = ProviderConfig::Warp { mode: WarpMode::DnsOnly, families_mode: true };
    let commands = WarpProvider::set_config_commands(&config);
    assert_eq!(commands, vec![
        vec!["mode".to_string(), "doh".to_string()],
        vec!["dns".to_string(), "families".to_string(), "malware".to_string()],
    ]);
    let config = ProviderConfig::Warp { mode: WarpMode::Proxy, families_mode: false };
    let commands = WarpProvider::set_config_commands(&config);
    assert_eq!(commands[0][1], "proxy");
    assert_eq!(commands[1][2], "off");
    let config = ProviderConfig::Warp { mode: WarpMode::Warp, families_mode: false };
    assert_eq!(WarpProvider::set_config_commands(&config)[0][1], "warp");
    let other = ProviderConfig::WireGuard { config_file: "/x.conf".to_string(), interface: "x".to_string() };
    assert!(WarpProvider::set_config_commands(&other).is_empty());
    assert!(matches!(WarpProvider::new().get_config(), ProviderConfig::Warp { mode: WarpMode::Warp, families_mode: false }));
    assert_eq!(WarpProvider::new().name(), "WARP");
}
