# superhq

The decision logic of the SuperHQ desktop host, written in Verus and
proved against its contracts: the remote-control wire protocol and its
envelope checks, device pairing and the session proof, the review pane's
diffs (replacement pairs, effective statistics, partial application), the
auth gateway's routing and credential headers, the audit log's rotation,
the remote state snapshot, the terminal's paste normalization, and the
labels and colors the UI derives from state.

Layout:

- `src/` — the verified library. Calls into `base64`, `hmac`/`sha2`,
  `similar`, `serde_json`, `qrcode` and `tungstenite` go through small
  trusted wrappers whose contracts name what those crates compute.
- `tests/` — tests of the library on concrete values.
- `app/` — the unverified glue: JSON (de)serialization of wire types,
  files, clocks, channels, the terminal emulator, tree-sitter parsing and
  the gateway's HTTP/WebSocket plumbing. It calls the library for every
  decision.
