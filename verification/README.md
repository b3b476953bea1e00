# rollup_core

The components of a rollup node, as a verified library: transaction mempool and pool,
batching, fee market, Merkle trees and fraud proofs, data availability, checkpoints and
snapshots, caching, rate limiting and replay protection, governance, validators, bridge,
DEX pools, oracles, meta-transactions, tracing, metrics and profiling.

- `src/` is the library. Every function carries a contract that Verus proves; calls into
  `sha2`, `sha3`, `flate2`, `uuid`, `num_cpus`, `chrono` and the system clock go through
  small trusted wrappers whose contracts say what those crates document.
- `tests/` exercises the library on concrete values.
- `app/` is the node program: logging, files, JSON Web Tokens, request limiters and event
  channels around the library.

Rates, ratios and prices that are fractions are kept as integers in millionths
(1_000_000 stands for 1.0).

Keyed state (pools, proposals, stakes, nonces, cache layers) is held in vectors behind
`&mut self`, in `src/table.rs` and `src/cache.rs`, rather than in `dashmap::DashMap` or
`lru::LruCache`. The contracts describe each table as a map from keys to the library's own
records, kept in insertion or recency order. An outside collection would be opaque to
Verus, its behaviour assumed through trusted declarations over each of the record types;
written here, the tables and every operation on them are proved instead. Nothing in the
library is shared between threads: callers that need that wrap a component in a lock.
The cache keeps the LRU order explicitly, least recent first, and evicts from the front.
