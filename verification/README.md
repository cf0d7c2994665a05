# pt_fuser

A library for call-tree traces recorded from hardware instruction traces,
written in Verus and checked against its contracts.

- `src/trace/metrics.rs`: `Metrics` (timestamp, cycles, instructions) with
  field-wise arithmetic, and `MetricsRange`, whose end is packed inline as
  21-bit differences when they fit and kept on the heap otherwise.
- `src/trace/mod.rs`: symbols, frames and their chunks (the chunk totals add
  up to the frame's totals), events with occurrences kept in timestamp order,
  traces, and the gzip framing of stored traces.
- `src/analysis/filter.rs`: the filter text (`target=regex, errors_min=n, ...`)
  and which traces a filter keeps.
- `src/merge/stats.rs`: the integer side of the merge statistics.
- `src/transform.rs`: the decisions of the trace transformer (symbol naming,
  call/return handling of branch samples, numbering of exported traces).
- `src/codec.rs`: the `flate2` calls; `src/text.rs`: number rendering.
- `app/`: serde/flexbuffers storage of traces, writing traces out, and the
  statistics trait whose values are floating point.
