# The Blocker

A domain blocker: block and allow rules (plain domains, hosts files,
adblock-style lists), an engine that decides on each queried domain, a DNS
server that answers blocked queries with the zero address and forwards the
others, an SQLite store of events and user lists, and a small HTTP API.

- `src/` is the verified library (Verus). Every function carries a contract;
  the laws that relate several operations are proof functions in
  `src/laws.rs` and `src/dns.rs`.
- `tests/` runs the library on concrete values.
- `app/` is the command-line program around the library: argument handling,
  files, the SQLite database, the UDP DNS server and the HTTP server.
- The desktop tray's decisions (what a menu entry does, the request it sends
  to the API, how the backend is started) are in `src/ui.rs`; the tray window
  itself, a Tauri application, is not part of this project.
