use conduit::commands::{collect_statuses, provider_not_found, WgConfigInfo};
use conduit::provider::{VpnError, VpnStatus};
use conduit::settings::AppSettings;
use conduit::state::{find_provider_index, provider_info};
use conduit::strmap::StrMap;
use conduit::tray::{tray_menu, TrayEntry};

fn status(provider: &str, connected: bool, ip: Option<&str>) -> VpnStatus {
    VpnStatus {
        provider: provider.to_string(),
        connected,
        ip: ip.map(|s| s.to_string()),
        since: None,
        latency_ms: None,
        extra: StrMap::new(),
    }
}

#[test]
fn providers_are_found_ignoring_ascii_case() {
    let names = vec!["Tailscale".to_string(), "WARP".to_string(), "WireGuard".to_string()];
    assert_eq!(find_provider_index(&names, "warp"), Some(1));
    assert_eq!(find_provider_index(&names, "WIREGUARD"), Some(2));
    assert_eq!(find_provider_index(&names, "tailscale"), Some(0));
    assert_eq!(find_provider_index(&names, "pritunl"), None);
    assert_eq!(find_provider_index(&names, "war"), None);
    assert_eq!(provider_not_found("pritunl"), "Provider 'pritunl' not found");
}

#[test]
fn provider_info_uses_visibility() {
    let mut settings = AppSettings::default();
    settings.provider_visibility.insert("WARP".to_string(), false);
    let info = provider_info("WARP", true, &settings);
    assert_eq!(info.name, "WARP");
    assert!(info.installed);
    assert!(!info.enabled);
    let info = provider_info("Other", false, &settings);
    assert!(!info.installed);
    assert!(info.enabled);
}

#[test]
fn only_answered_statuses_are_listed() {
    let results = vec![
        Ok(status("Tailscale", true, None)),
        Err(VpnError::NotInstalled),
        Ok(status("WireGuard", false, None)),
        Err(VpnError::Timeout),
    ];
    let statuses = collect_statuses(results);
    let names: Vec<&str> = statuses.iter().map(|s| s.provider.as_str()).collect();
    assert_eq!(names, vec!["Tailscale", "WireGuard"]);
    assert!(collect_statuses(vec![]).is_empty());
}

#[test]
fn wireguard_config_entries_are_named_by_stem() {
    let info = WgConfigInfo::from_path("/etc/wireguard/office.conf".to_string());
    assert_eq!(info.name, "office");
    assert_eq!(info.path, "/etc/wireguard/office.conf");
    let info = WgConfigInfo::from_path("/".to_string());
    assert_eq!(info.name, "");
    assert!(conduit::paths::has_conf_extension("/etc/wireguard/wg0.conf"));
    assert!(!conduit::paths::has_conf_extension("/etc/wireguard/wg0.conf.bak"));
    assert!(!conduit::paths::has_conf_extension("/etc/wireguard/.conf"));
}

fn view(e: &TrayEntry) -> (bool, String, String, bool) {
    match e {
        TrayEntry::Item { id, label, enabled } => (false, id.clone(), label.clone(), *enabled),
        TrayEntry::Separator => (true, String::new(), String::new(), false),
    }
}

#[test]
fn tray_menu_lists_providers_then_actions() {
    let statuses = vec![status("Tailscale", true, Some("100.64.0.1")), status("WARP", false, Some("1.1.1.1"))];
    let menu: Vec<(bool, String, String, bool)> = tray_menu(&statuses).iter().map(view).collect();
    let item = |id: &str, label: &str, enabled: bool| (false, id.to_string(), label.to_string(), enabled);
    let sep = (true, String::new(), String::new(), false);
    assert_eq!(
        menu,
        vec![
            item("toggle_tailscale", "● Tailscale  Connected", true),
            item("detail_tailscale", "   100.64.0.1", false),
            sep.clone(),
            item("toggle_warp", "○ WARP  Disconnected", true),
            sep.clone(),
            item("open", "Open Dashboard", true),
            sep.clone(),
            item("quit", "Quit Conduit", true),
        ]
    );
    assert_eq!(tray_menu(&vec![]).len(), 3);
}
