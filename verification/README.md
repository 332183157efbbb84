# kce

The verified core of the KineContext Engine, a context-retrieval service:
storage pages and write-ahead replay, the semantic graph and its
breadth-first expansion, the swarm packet codec and replicated state, the
response caches, idempotency and circuit breaking, the cell lifecycle, the
instruction encoder and dispatcher, tenant admission and the API's error
replies.  Verus proves the functions in `src/` against their contracts.
The calls into std (clocks, hashing, UTF-8 decoding, I/O error text) and
into crc32fast stand behind small wrappers in `src/clock.rs`,
`src/error.rs`, `src/page.rs`, `src/resilience.rs` and `src/store.rs`,
whose contracts are trusted rather than proved.

- `src/` — the library, verified with Verus.
- `tests/` — tests of the library.
- `app/` — the program around it: the HTTP and MCP servers, file and
  network I/O, and the floating-point parts (vector similarity, ant-colony
  routing, anomaly detection, regulation).
