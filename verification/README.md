# conduit

The core of a macOS menu-bar app that manages Tailscale, Cloudflare WARP,
WireGuard and Pritunl connections, written in Verus with every function of the
library proved against its contract.

- `src/` is the verified library: reading each tool's status output, building
  its command arguments and service requests, decoding base64 key data, sorting
  profiles, the app's settings and provider lookup, the tray menu, and the
  search for a tool on the machine as a state machine.
- `tests/` runs the library on concrete inputs.
- `app/` is the Tauri application around it: it runs the commands, reads and
  writes files, talks to the Pritunl service over its socket, and hands what it
  gets to the library.
