use conduit::settings::AppSettings;

#[test]
fn test_default_settings() {
    let settings = AppSettings::default();
    assert_eq!(settings.poll_interval_secs, 3);
    assert!(!settings.launch_at_login);
    assert!(settings.is_provider_visible("Tailscale"));
    assert!(settings.is_provider_visible("WARP"));
    assert!(settings.is_provider_visible("WireGuard"));
}

#[test]
fn default_settings_show_pritunl_and_unknown_providers() {
    let settings = AppSettings::default();
    assert!(settings.is_provider_visible("Pritunl"));
    assert!(settings.is_provider_visible("SomethingElse"));
    assert_eq!(settings.provider_visibility.len(), 4);
    assert!(settings.wireguard_last_interface.is_none());
    assert!(settings.pritunl_last_profile.is_none());
}

#[test]
fn hidden_provider_is_not_visible() {
    let mut settings = AppSettings::default();
    settings.provider_visibility.insert("WARP".to_string(), false);
    assert!(!settings.is_provider_visible("WARP"));
    assert!(settings.is_provider_visible("Tailscale"));
    assert_eq!(settings.provider_visibility.len(), 4);
}
