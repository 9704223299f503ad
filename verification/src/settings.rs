//! The app's settings: poll interval, login launch, which providers are shown.
use vstd::prelude::*;

use crate::strmap::StrMap;
use crate::text::owned;

verus! {

broadcast use vstd::string::group_string_axioms;

/// The app's settings.
#[derive(Debug, Clone)]
pub struct AppSettings {
    pub poll_interval_secs: u64,
    pub launch_at_login: bool,
    pub provider_visibility: StrMap<bool>,
    pub wireguard_last_interface: Option<String>,
    pub pritunl_last_profile: Option<String>,
}

/// The providers the app knows, all shown at first.
pub open spec fn default_visibility() -> Map<Seq<char>, bool> {
    Map::<Seq<char>, bool>::empty().insert("Tailscale"@, true).insert("WARP"@, true).insert("WireGuard"@, true).insert(
        "Pritunl"@,
        true,
    )
}

impl Default for AppSettings {
    /// Poll every 3 seconds, do not launch at login, show every provider.
    fn default() -> (s: Self)
        ensures
            s.poll_interval_secs == 3,
            !s.launch_at_login,
            s.provider_visibility@ == default_visibility(),
            s.wireguard_last_interface is None,
            s.pritunl_last_profile is None,
    {
        let mut visibility: StrMap<bool> = StrMap::new();
        visibility.insert(owned("Tailscale"), true);
        visibility.insert(owned("WARP"), true);
        visibility.insert(owned("WireGuard"), true);
        visibility.insert(owned("Pritunl"), true);
        AppSettings {
            poll_interval_secs: 3,
            launch_at_login: false,
            provider_visibility: visibility,
            wireguard_last_interface: None,
            pritunl_last_profile: None,
        }
    }
}

/// Whether a provider is shown: as set, and shown when it has no setting.
pub open spec fn visible(visibility: Map<Seq<char>, bool>, name: Seq<char>) -> bool {
    if visibility.dom().contains(name) {
        visibility[name]
    } else {
        true
    }
}

impl AppSettings {
    /// Whether the provider `name` is shown.
    pub fn is_provider_visible(&self, name: &str) -> (b: bool)
        ensures
            b == visible(self.provider_visibility@, name@),
    {
        match self.provider_visibility.get(name) {
            Some(v) => *v,
            None => true,
        }
    }
}

/// With the default settings every provider is shown, known or not.
pub proof fn lemma_default_shows_all(name: Seq<char>)
    ensures
        visible(default_visibility(), name),
{
}

} // verus!
