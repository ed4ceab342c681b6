# comma

The daemon of an NCCL profiler plugin, as a library that is verified with Verus.

- `src/` is the library. Every function states what it does, and Verus proves
  it. Four functions call the standard library or tokio and are believed to do
  what they state: `utf8_lossy` in `src/utf8_text.rs`, `try_send` in
  `src/exporter.rs`, `path_parent` in `src/paths.rs` and `quote` in
  `src/control_rpc.rs`. The model of the polling daemon is in `src/polling_model.rs`; the
  properties that hold across events are the public proof functions of
  `src/polling_laws.rs`, `src/reclaim_laws.rs`, `src/telling_laws.rs`,
  `src/run_laws.rs`, `src/ring_laws.rs`, `src/ring_layout.rs`, `src/live_encode.rs`,
  `src/exporter.rs`, `src/delivery.rs`, `src/summary.rs`, `src/paths.rs`,
  `src/setting_text.rs`, `src/control_rpc.rs` and `src/runtime_gates.rs`.
- `app/` runs it: threads, channels, the mapped ring file, the control socket.
- `tests/` runs the library on concrete values.

Time is passed in: the library reads no clock, so a pass over the queues is a
function of what it is given.
