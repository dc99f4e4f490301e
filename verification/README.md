# perf_compare

Decides what a comparison of two compiler artifacts has to say: which test cases
changed, which of the changes count, what the triage report reads, and which
commits come next.

- `src/` is the library, verified with Verus. It works on plain values; a
  measurement is held by the bits of its double-precision number (`double.rs`).
- `app/` holds the endpoints around it: what they read, and the floating-point
  arithmetic on the measurements.
- `tests/` runs the library.

The library calls `chrono` for calendar dates (`src/date.rs`), and hands the texts of
a test case to a hasher (`src/benchmark.rs`); what is believed of these calls without
proof stands in the contracts there.
