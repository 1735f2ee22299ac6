# bottom — verified power widget and Apple GPU sampler core

`src/` is a Verus library:

- `residency` — average GPU frequency, active share and scaled utilisation from a
  performance-state residency sample, in exact integer arithmetic, with the laws that
  bound them.
- `sampler` — the state of the GPU sampler (frequency table, baseline) and the
  utilisation, clamped to `[0, 1]`, that a `GPUPH` sample shows.
- `channels` — selection of the IOReport GPU performance-state channels.
- `dvfs` — decoding of the `pmgr` `voltage-states9` frequency table.
- `text` — C string buffers and state names.
- `widgets`, `canvas` — power widget state and its hit-testing corners.
- `error` — why a sampler could not be set up.

`app/` holds what talks to IOKit/IOReport (macOS only) and the float formatting of the
power graph labels; `tests/` exercises the library.
