# proxyzms

The core of ProxyZms, a desktop client that downloads, starts and controls a
local [mihomo](https://github.com/MetaCubeX/mihomo) proxy core, with a
Bluetooth proximity screen lock. The library is written in Verus: every
function carries a contract that the verifier proves.

- `src/bootstrap.rs` — control takeover of `config.yaml` (strip the
  controller keys a subscription carries, inject the local ones), the
  first-run setup decisions, download assets and zip entries.
- `src/unpack.rs` — which entry of the downloaded archives is taken
  (decompression by flate2 and zip).
- `src/node_notes.rs` — node notes read from the comments of `config.yaml`.
- `src/ble_lock/` — the RSSI monitor that decides when to lock, the
  decisions of the background watch (countdown, supervisor, history), device
  matching and ordering, and the notification outcome.
- `src/mihomo/` — External Controller models, URLs and paths, process
  arguments and the pid file.
- `src/format.rs` — byte counts and rates as shown in the window;
  `src/traffic.rs` — live rates from consecutive `/connections` polls.
- `src/autostart.rs`, `src/theme.rs`, `src/config.rs`, `src/logo.rs` —
  start-at-login texts, the dark-appearance probe, the settings and the
  logo as a data URI.

`tests/` runs the library on concrete values. `app/` is the program around
it, run from a terminal: files, processes, HTTP and WebSocket, Bluetooth and
the serde copies of the data types.
