# pi_unitary

Integer phase rings and additive-only choke kernels, the trace and audit
formats built on them, and the tools that run them. The library under
`src/` is written in Verus: every function carries a contract, and the laws
the kernels keep are stated and proved as proof functions.

## Layout

- `src/additive.rs`: `PhaseTicks` (a position on a ring of ticks) and
  `RemainderAccumulator` (whole slots out, remainder carried).
- `src/choke_additive.rs`: the choke node lifecycle and the kernel that
  steps a lane of nodes; `src/choke_schema.rs`: the numeric phase and
  pathway ids and their names.
- `src/recursive.rs`: the branching kernel that moves quanta down a binary
  tree of levels and feeds a share of the deepest level back to the root.
- `src/scenario.rs`: the deterministic drive schedule and the CSV trace of a
  choke run.
- `src/audit_format.rs`, `src/audit_run.rs`, `src/node_record.rs`,
  `src/bytes.rs`, `src/text.rs`: the audit segment format (encode and
  decode), the bookkeeping of an audit run and its manifest lines, node
  records of GPU snapshots, little-endian bytes and decimal/hex text.
- `src/gpu_tools.rs`, `src/cli.rs`: seeds, payload filling and sizing for the
  GPU tools, and command-line option reading.
- `src/engine_kinds.rs`: the integer-valued kinds of the engine snapshot.

`app/` holds the command-line tools (`choke_trace`, `gpu_audit_capture`,
`gpu_audit_decode_choke`, `gpu_pingpong_audit`), the file, clock and GPU
work around the library, and the floating-point code: the phase helpers and
the engine snapshot.
