# gibberish

Verified core of an off-grid, end-to-end encrypted IEEE 802.15.4 mesh: USB dongles relay
ciphertext over the air, and a desktop daemon encrypts, chunks, reassembles and syncs
messages and the clipboard for a desktop client.

## Layout

- `src/` — the library, verified with Verus.
  - Wire formats: `frame` (mesh header and packet, SACK, telemetry payloads), `bytes`,
    `usb_rx` (the dongle's host-to-radio framing), `transport` (the dongle's serial line
    protocol), `ieee802154`.
  - Cryptography: `ratchet` (subkeys, implicit nonces, chunk sealing), `secrecy`, `chat`
    (swarm and direct messages), `identity` (SAS words, verification links).
  - The daemon: `chunk` (fragmentation, reassembly, anti-DoS limits, SACK recovery),
    `reassembly` (what a receiver makes of a message's fragments), `nonce`, `dedup`,
    `dtn_outbox`, `fleet`, `clipboard`, `daemon` (command line and dongle reports),
    `ipc` (JSON-RPC methods, answers and notifications), `schema`, `store`, `json`.
  - The client: `controller` (UI state and events), `ipc_client` (what the daemon's frames
    show, and the requests the client sends).
  - The dongle: `relay` (what the main loop decides: each received frame, host packets,
    the button's beacon, the transmit service, periodic telemetry, the status LED),
    `sram_ring`, `fat32_container`, `sd_driver`, `display`, `led`, `coex`, `ble_gate`.
- `tests/` — tests against the library.
- `app/` — the daemon program: serial ports, SQLite, the WebSocket server, the OS
  clipboard and logging, around the library.
