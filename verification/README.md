# ultima_rings

Bounded ring channels, verified with Verus: one producer and one consumer (`spsc`), several
producers and one consumer (`mpsc`), and several producers with a ring each (`sharded`). A
blocked side waits by one of four strategies: `BusySpin`, `BackoffYield`, `Backoff`, `Park`.

A handle is a machine: it says which access to the shared memory comes next, and takes what
the access returned. So the same verified code runs on any memory.

- `src/` is the library. `spsc`, `mpsc` and `sharded` hold the handles, a memory for use from
  one thread, and the whole operations on it with exact contracts. The three files
  `interleave.rs` prove what holds of every mix of the threads' accesses: the items come out
  in order, none is lost and none comes twice; no two threads meet in a slot; a missing side
  is reported only when everything was taken out; no producer of `sharded` starves another; no
  wake-up is lost, but for the room that a batch leaves when its callback panics. `wait` has
  the ladder of the backing-off strategies, `notify` the flags and names of sleeping threads.
- `app/` runs the handles on real threads, with atomics, shared slots and parked threads.
- `tests/` runs the library, among others under every order of the accesses of small rings.
