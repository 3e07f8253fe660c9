# ds41rt_daemon

The host-side logic of a native inference daemon: request slots and their paged
caches, transactional commits, lane scheduling, expert requests and the replay
of expert reductions. The library's functions carry contracts that Verus proves.
One is taken on trust: `text::quoted`, which quotes a string as the standard
library's `{:?}` does.

The library decides; it does not touch a device, a file or a socket. Device work
is handed out as plain values (copies, launches, uploads) and its outcome comes
back as an argument.

## Layout

- `src/page_pool.rs`, `src/source_cache/`: paged storage of the compressed
  sources, with reservations, plans and retained prefixes.
- `src/window.rs`, `src/compressor/`, `src/draft_window.rs`: the caches of one
  layer and the waves that fill them.
- `src/backbone_cache/`: the bank of requests over all layers: admission,
  planning, commit, release, prefixes, snapshots, replicas. `history.rs` states
  what holds over any run of its operations, `steps.rs` that each of them is a
  step of such a run.
- `src/execution/`: one pass over all layers, local or distributed.
- `src/attention_query.rs`, `src/attention_output.rs`, `src/block/`,
  `src/engram/`, `src/router/`, `src/shared_ffn.rs`, `src/lane/`: the stages of
  a layer.
- `src/replay/`: plan checking, batches, schedule and statistics of the expert
  reduction benchmark.
- `src/serve_options.rs`: the rules on the options of the server.
- `tests/`: tests on concrete values.
- `app/`: command line, file input and the driving loops.

Public proof functions named `law_*` state what holds across several functions.
