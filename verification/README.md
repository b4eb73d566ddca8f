# dlock

Delegation locks — flat combining, its fair (banning) variants, flat
combining over a skip list, CCSynch and CCSynch with banning, remote core
locking — together with the pieces of the benchmark suite that decide
things: the targets and their options, the critical sections of the
workloads, the statistics kept by the fair locks, and the parkers' flag
protocols.

Each lock is written as a sequential state machine over plain data: the
publication list, the request queue or the request slots are vectors of
nodes indexed by thread, and every operation (publish, combine, clean up,
serve) is a verified function whose contract states the data and the
critical sections after it in terms of spec functions (`served_data`,
`run_all`, `fair_data_upto`, `sl_nodes_after`, `locks_after`).

- `src/` — the verified library (Verus). Laws relating several operations
  are public proof functions named `law_*`.
- `tests/` — tests of the library on concrete values.
- `app/` — the benchmark driver: command line, threads, the counter,
  array-counter and hash-map workloads, remote core locking with a serving
  thread and spinning or futex parkers, CSV output, and the floating-point
  statistics. The library's locks are sequential state machines; the
  driver's threads take turns on them.
