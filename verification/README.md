# rust_rdma_bench

A two-sided RDMA benchmark (bandwidth, latency, delivery accuracy) whose decisions are
verified with Verus.

- `src/` is the verified library: the command-line plan (`cli`), the protocol messages and the
  decisions taken on them (`comm`), device selection (`device`), the report header (`report`),
  decimal and column text (`text`), and under `bench/` the accuracy payload, its checker and
  tally, the windowed stream that drives the streaming benchmarks, the latency wait and the
  RDMA responder's buffer sizing.
- `app/` is the program around it: clap parsing, the TCP connection with its JSON messages,
  the verbs calls through `ibverbs`, timing, and the floating-point statistics and rows.
- `tests/` runs the library on concrete inputs.
