# iox_util

Verified pieces of a time-series database server, written in Verus.

- `src/tick_tolerance.rs`: the tick interval of a clock from its timebase,
  the tolerance derived from it, and the comparison of two measured durations
  within a tolerance.
- `src/approximate_time.rs`: the wall-clock time shown for a monotonic
  instant, relative to a reference pair read once; a later instant is never
  shown as an earlier time.
- `src/task_id.rs`, `src/operations.rs`: job trackers reported as
  long-running operations, and the lookup of a job by operation name.
- `src/order.rs`: the lexicographic order of strings and of sets of
  attributes.
- `src/assoc.rs`, `src/attributes.rs`, `src/metric.rs`: the per-attribute
  observers of a metric, kept in ascending order of their attributes, and how
  a metric is reported.
- `src/write_buffer_config.rs`: the write buffer that a database's rules ask
  for.

`app/` holds what cannot be verified: the process-wide reference time, the
macOS timebase query, the lock that shares a metric between threads, and the
conversions to gRPC statuses.
