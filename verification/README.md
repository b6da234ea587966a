# ip_firewall

A DNS-level advertisement blocker. The verified library (`src/`) holds the
logic: domain normalization, the managed region of the hosts file, blocklist
matching and the response cache of the local DNS proxy, the packet-filter
state machine, and the command lines and tool output of the platform DNS and
firewall settings. `app/` is the desktop shell around it: Tauri commands,
SQLite storage, sockets, threads and the platform tools.

Modules of the library:

- `text`: the character model of strings (trimming, searching, splitting).
- `models`: the records shown on the dashboard.
- `sinkhole`: normalization and hosts-file editing, with the round-trip laws.
- `dns_proxy`: query decisions, the blocked-name set, the cache and
  DNS-over-TCP framing.
- `dns_message`: the question a packet asks, whether an upstream reply
  answers it, and the checked `NXDOMAIN` answer (decoded and encoded with
  hickory).
- `packet_filter`: the filter's state, its laws over call sequences, status
  and rule commands.
- `system_dns`: resolver settings commands, the Windows adapter report, the
  restore commands, and the parsing of tool output.
- `commands`: the decisions of the administrative commands, including the
  step machine that switches protection on and off.
- `db`: activity timestamps.
