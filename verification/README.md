# crabcache

The protocol and storage core of a key-value cache server, written in Verus
with its behaviour stated in `requires` / `ensures` contracts and proved.

## Layout

- `src/` — the verified library.
  - `protocol/` — the text, binary, protobuf, TOON and TOON v2 wire formats:
    parsers and encoders with exact contracts, the pipelined batch readers,
    protocol negotiation, string interning, and the round-trip laws
    (`protocol/toon/laws.rs` and the `lemma_*` / `law_*` proof functions
    beside each format).
  - `store/`, `shard/`, `ttl/` — items, the hash maps, the arena and the
    zero-copy store, the shards, and TTL bookkeeping.
  - `security/`, `server/` — authentication, IP filtering, request
    handling, buffer pools and connection metrics.
- `tests/` — tests run against the compiled library.
- `app/` — the program around the library: sockets, threads, clocks read at
  the edge, JSON and float figures, CPU feature detection.

## Checking

Verus verifies `src/`; the tests run with the real outside crates linked.
