# fornet_lib

The core of the ForNet client, a WireGuard-based network tool, written in
Verus: the library in `src/` states what each function does in its
contract, and Verus proves the code against it.

- `src/device/` — the tunnel device: the longest-prefix table of allowed
  IPs, peers and their endpoints, the peer registry with its index register
  (indexes never repeat), the decisions taken for every packet, and one
  verified step of each device loop, calling `boringtun` for the WireGuard
  sessions.
- `src/client_manager.rs`, `src/wr_manager.rs`, `src/server_manager.rs` —
  the networks a node has joined, its devices, and the messages of the
  control server.
- `src/sc_manager.rs` — the configuration-sync channel over MQTT: what each
  message does, the session's login and topics, reconnecting.
- `src/config.rs`, `src/crypto.rs` — identities, key files, signed
  requests, and the calls into `base64`, `x25519-dalek`, `ed25519-compact`,
  `serde_json`, `rand`.
- `src/api.rs`, `src/server_api.rs`, `src/flutter_api.rs` — invite codes,
  the command socket's commands and answers.
- `src/fortun.rs` — the Windows tunnel driver's values: control codes,
  UTF-16 lists, `netsh` arguments.
- `app/` — the program: the daemon serving the command socket and the
  command-line client.
- `tests/` — the tests, among them a full WireGuard handshake between two
  devices over UDP and over TCP.
