# plexus

Building blocks for exchanging messages through a shared memory region,
written in Verus: the library's functions carry contracts that the verifier
proves (the role tokens handed out by `SharedChannel::split` carry no data,
so nothing is stated of them).

## Layout

- `src/arena`: the arena header (versioning, checksum, two-phase publish
  state), attach-time recovery, the allocator (bump pointer, free list,
  per-offset generations) and epoch-based reclamation.
- `src/ptr`: generation-checked handles and relative pointers.
- `src/sync`: a bounded ring with per-slot sequence numbers.
- `src/ipc`: channels of handles and endpoints that publish values into an
  arena and send their handles.
- `src/containers`: a vector, a string and a map whose elements live in an
  arena.
- `src/sys`: validation of mapping requests and their security profiles.
- `src/telemetry`: counters, snapshots and alert thresholds.
- `src/codec.rs`: the little-endian byte encoding of the values an arena
  holds.
- `src/bench`: the synthetic order updates, the round-trip loop used by
  the benchmark, and the framing and client steps of its TCP + JSON
  baseline.
- `app/`: the benchmark program and diagnostic tools, the operating-system
  mapping, clocks, logging and the serde and error-type copies of library
  types.

The arena owns its bytes: an endpoint built on an operating-system mapping
starts from a copy of the mapped region, and the application writes the
arena's bytes back into the mapping.

Concurrency is not modelled: operations that the shared-memory setting runs
under atomics and locks take `&mut` here, and the contracts describe each
operation on its own.
