# stellarconduit-core

The core of a mesh network that relays Stellar transactions between nearby devices
over BLE and WiFi-Direct, written in Verus: the logic is executable Rust whose
behaviour is stated in `requires` / `ensures` contracts and proved.

## Layout

- `src/` — the verified library.
  - `discovery` — BLE advertisement payloads, the peer list with its expiry window,
    and handling of received advertisements.
  - `gossip` — gossip state and anti-entropy sync, round scheduling, and Bloom-filter
    duplicate suppression (single and sliding two-window filters).
  - `message` — protocol message types, envelope signing and signature checks.
  - `peer` — peer identities, peer records and reputation.
  - `persistence` — the column values a peer record is stored as.
  - `router` — ranking next hops by shortest known route to a relay, and fan-out.
  - `topology` — reported topology, hop counts to a relay, pruning thresholds.
  - `transport` — chunking and reassembly of messages, the BLE frame wire format,
    BLE link state, the per-peer connection table and the connection policy.
  - `crypto`, `clock` — the trusted boundary to `sha2`, `ed25519-dalek` and the
    system clock.
- `app/` — the I/O around the library: MessagePack encoding, the SQLite store, Tokio
  tasks (scanner, pruning, gossip loop) and async connections driven by the library's
  connection policy.
- `tests/` — tests of the library on concrete values.

## What is proved

Besides each function's contract, the library states and proves laws that span calls,
among them: reassembly gives back exactly the chunked message whatever order the
frames arrive in; frame and advertisement encodings round-trip; a sync round leaves
the requester holding every message of the responder; a sliding filter remembers an
id for at least a window; reputation stays within bounds; a topology report reads
back as written; a peer holds at most one connection.
