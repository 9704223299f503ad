use conduit::json::JsonValue;
use conduit::provider::tailscale::TailscaleProvider;
use conduit::provider::{ConnectOptions, ProviderConfig, VpnError};

#[test]
fn tailscale_test_parse_status_connected() {
    let json = r#"{
            "Version": "1.60.0",
            "BackendState": "Running",
            "Self": {
                "ID": "abc123",
                "HostName": "my-mac",
                "DNSName": "my-mac.tailnet.ts.net.",
                "TailscaleIPs": ["100.64.0.1", "fd7a:115c:a1e0::1"]
            },
            "CurrentTailnet": {
                "Name": "myuser@github",
                "MagicDNSSuffix": "tailnet.ts.net"
            },
            "Peer": {
                "peer1": {"ID": "p1", "HostName": "peer1"},
                "peer2": {"ID": "p2", "HostName": "peer2"}
            },
            "ExitNodeStatus": null
        }"#;

    let status = TailscaleProvider::parse_status(json).unwrap();
    assert!(status.connected);
    assert_eq!(status.provider, "Tailscale");
    assert_eq!(status.ip.as_deref(), Some("100.64.0.1"));
    assert_eq!(status.extra.get("tailnet_name").map(|s| s.as_str()), Some("myuser@github"));
    assert_eq!(status.extra.get("hostname").map(|s| s.as_str()), Some("my-mac"));
    assert_eq!(status.extra.get("peers_count").map(|s| s.as_str()), Some("2"));
}

#[test]
fn tailscale_test_parse_status_disconnected() {
    let json = r#"{
            "Version": "1.60.0",
            "BackendState": "Stopped",
            "Self": {
                "ID": "abc123",
                "HostName": "my-mac",
                "DNSName": "my-mac.tailnet.ts.net.",
                "TailscaleIPs": []
            },
            "CurrentTailnet": null,
            "Peer": {}
        }"#;

    let status = TailscaleProvider::parse_status(json).unwrap();
    assert!(!status.connected);
    assert!(status.ip.is_none());
}

#[test]
fn test_parse_status_invalid_json() {
    let result = TailscaleProvider::parse_status("not json");
    assert!(matches!(result, Err(VpnError::ParseError(_))));
}

#[test]
fn tailscale_extra_fields_and_first_string_address() {
    let json = r#"{"BackendState":"Running","Self":{"TailscaleIPs":[7,"100.1.2.3"]},
        "Peer":{},"ExitNodeStatus":{"ID":"node-9"}}"#;
    let status = TailscaleProvider::parse_status(json).unwrap();
    assert!(status.connected);
    assert_eq!(status.ip.as_deref(), Some("100.1.2.3"));
    assert_eq!(status.extra.get("peers_count").map(|s| s.as_str()), Some("0"));
    assert_eq!(status.extra.get("exit_node").map(|s| s.as_str()), Some("node-9"));
    assert!(status.extra.get("hostname").is_none());
    assert!(status.extra.get("tailnet_name").is_none());
    assert_eq!(status.extra.len(), 2);
    assert!(status.since.is_none());
    assert!(status.latency_ms.is_none());
}

#[test]
fn tailscale_missing_backend_state_is_disconnected() {
    let status = TailscaleProvider::parse_status("{}").unwrap();
    assert!(!status.connected);
    assert_eq!(status.extra.len(), 0);
    let status = TailscaleProvider::status_from_json(&JsonValue::Null);
    assert!(!status.connected);
    assert!(status.ip.is_none());
}

#[test]
fn tailscale_parse_error_carries_the_json_message() {
    match TailscaleProvider::parse_status("{") {
        Err(VpnError::ParseError(m)) => assert!(m.contains("EOF")),
        other => panic!("expected a parse error, got {:?}", other),
    }
}

#[test]
fn tailscale_cli_and_installed() {
    let none = TailscaleProvider::new(None);
    assert!(!none.is_installed());
    assert!(matches!(none.cli(), Err(VpnError::NotInstalled)));
    let some = TailscaleProvider::new(Some("/usr/bin/tailscale".to_string()));
    assert!(some.is_installed());
    assert_eq!(some.cli().unwrap(), "/usr/bin/tailscale");
    assert_eq!(some.name(), "Tailscale");
}

#[test]
fn tailscale_connect_and_set_arguments() {
    let plain = ConnectOptions { provider_config: None };
    assert_eq!(TailscaleProvider::connect_args(&plain), vec!["up".to_string()]);
    let exit = ConnectOptions {
        provider_config: Some(ProviderConfig::Tailscale { exit_node: Some("nyc".to_string()), accept_routes: false, shields_up: false }),
    };
    assert_eq!(TailscaleProvider::connect_args(&exit), vec!["up".to_string(), "--exit-node=nyc".to_string()]);
    let config = ProviderConfig::Tailscale { exit_node: None, accept_routes: true, shields_up: false };
    assert_eq!(
        TailscaleProvider::set_config_args(&config),
        Some(vec!["set".to_string(), "--accept-routes=true".to_string(), "--shields-up=false".to_string()])
    );
    let other = ProviderConfig::Warp { mode: conduit::provider::WarpMode::Warp, families_mode: false };
    assert_eq!(TailscaleProvider::set_config_args(&other), None);
    match TailscaleProvider::new(None).get_config() {
        ProviderConfig::Tailscale { exit_node, accept_routes, shields_up } => {
            assert!(exit_node.is_none() && !accept_routes && !shields_up)
        }
        _ => panic!("Tailscale reports a Tailscale configuration"),
    }
}

#[test]
fn tailscale_cli_choice() {
    assert_eq!(
        TailscaleProvider::choose_cli(true, Some("/usr/local/bin/tailscale".to_string())).as_deref(),
        Some("/Applications/Tailscale.app/Contents/MacOS/Tailscale")
    );
    assert_eq!(TailscaleProvider::choose_cli(true, None).as_deref(), Some("/Applications/Tailscale.app/Contents/MacOS/Tailscale"));
    assert_eq!(
        TailscaleProvider::choose_cli(false, Some("/usr/local/bin/tailscale".to_string())).as_deref(),
        Some("/usr/local/bin/tailscale")
    );
    assert_eq!(TailscaleProvider::choose_cli(false, None), None);
}
