# dynamo-core

Decision logic of a distributed inference runtime, verified with Verus.

- `src/quic` – the fixed-lane response transport: frames and their wire form,
  lanes and batches, the worker's sender, the frontend's table of responses, and
  the proof that a response arrives whole and in order
- `src/tcp` – the callback transport for streaming requests to workers
- `src/session_affinity` – keeps the requests of a session on one worker, across
  routers
- `src/pylon_stats.rs`, `src/frontend_stats.rs` – request counters and KV-cache
  state
- `src/request_trace.rs`, `src/http_headers.rs` – records of requests, free of
  media, with allowlisted headers
- `src/network.rs`, `src/metrics.rs` – payload codecs, registered streams and
  transport counts
- `src/codegen` – generates Python classes from Rust modules of metric names

`app/` runs the logic: the generator's `main`, sockets, tasks, clocks and serde.
Times reach the library as plain numbers, and outside events as plain values.

Contracts speak of mathematical models. Statements that relate several
functions are public proof functions next to them.
