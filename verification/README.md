# pika

Verified core of a sing-box desktop client, written in Verus.

`src/` is the library. Its functions are proved against their contracts,
except five small wrappers around outside code whose contracts are trusted
(`String::push`, `Path::join`, `IpAddr` parsing, `url::Url::parse`,
`char::is_numeric`); each says in its doc comment what it assumes.

- `urltest` — which subscription nodes the automatic group probes
  (placeholders dropped, Hong Kong residential lines first, at most eight),
  and the group's settings.
- `dns` — conversion of legacy DNS addresses into sing-box DNS servers.
- `json`, `kernel_log` — an ordered JSON model and the log section edits.
- `vpn_conflict` — reading `route`/`scutil` answers, the conflict report
  and the notices shown to the user.
- `proxy_util` — bypass lists, proxy addresses, and the macOS network
  services that receive the system proxy.
- `compat_proxy` — the state machine of the legacy-port forwarder.
- `text`, `sorting` — string operations and a stable insertion sort with
  exact specifications.

`app/` holds the I/O around it: commands, registry, sockets, and the
`serde_json`/`serde` forms of the library's values.
