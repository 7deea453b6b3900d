# tace

A Chord distributed hash table whose nodes store end-to-end encrypted messages,
written in Verus.

## Layout

- `src/` — the verified library.
  - `ring.rs`: 160-bit identifiers, ring intervals and identifier arithmetic.
  - `hex.rs`, `digest.rs`, `keys.rs`: hexadecimal text, SHA-1 identifiers and
    virtual nodes, and the P-256 / AES-256-GCM key functions.
  - `messages.rs`: the messages nodes exchange.
  - `store.rs`, `selection.rs`, `node.rs`: the key-value store, list selection
    (unique nodes, load order) and the state of a node.
  - `lookup.rs`, `storage.rs`, `maintenance.rs`, `serve.rs`, `api.rs`: the
    protocol procedures as step machines. Each takes the node's state and the
    outcome of its last call and says what to send next; the caller performs the
    call.
  - `limiter.rs`: the per-host connection limit and the retry schedule.
  - `laws.rs`: properties that relate several functions.
- `app/` — the program around the library: the TCP server and client, the HTTP
  API, metrics arithmetic (floating point), the metrics collector and the browser
  bindings.
- `tests/` — tests of the library.
