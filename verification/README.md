# v2rayv

The core of a VLESS + REALITY desktop VPN client, verified with Verus:
share-link parsing and formatting, the xray client configuration, corporate
VPN route analysis, bypass lists, the server and subscription bookkeeping,
the connection state machine, TUN-mode helper plans, system-proxy settings
and the privileged-helper protocol.

- `src/` — the verified library; contracts are stated
  over mathematical views of the data.
- `tests/` — ordinary Rust tests of the library.
- `app/` — the Tauri desktop application around it: windows, tray, saved
  files, processes and the network.
