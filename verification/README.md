# ox_shared

Shared-state primitives for a multi-threaded scripting runtime, with their
behaviour stated in contracts and proved with Verus.

- `src/` — the verified library, one module per primitive: `counter`,
  `atomic` (with memory-ordering validation), `flag`, `map_key` and `map`
  (a capped key/value store over `dashmap`, with null-as-absence), `once`
  (a lazy-initialisation cell with reset/poison failure modes), `mutex`
  (corruption and no-rollback rules), `channel` (a bounded channel over
  `crossbeam-channel` with parked fiber senders and receivers, loss-free
  hand-off and a front stash), `channel_ops` (framing batches and the
  decisions of the engine-facing send/receive paths), `pool` (per-thread
  resource pool with budget, eviction and metrics), `rc` (status codes to
  exceptions), and the small helpers `text`, `wire`, `value`, `error`.
  Each module's laws are public proof functions named `law_*`.
- `tests/` — executable tests of the library.
- `app/` — the embedding glue: the calling thread's identity, and the
  blocking waits of channels and pools (a lock, a condition variable and
  a clock around the library's step functions).
