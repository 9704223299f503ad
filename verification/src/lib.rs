//! Conduit: the verified core of a VPN manager that drives Tailscale, Cloudflare
//! WARP, WireGuard and Pritunl through their command-line tools and services.
use vstd::prelude::*;

pub mod commands;
pub mod json;
pub mod paths;
pub mod provider;
pub mod settings;
pub mod state;
pub mod strmap;
pub mod text;
pub mod tray;
pub mod util;

verus! {

} // verus!
