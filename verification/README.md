# daylight

A terminal day/night world clock: a Kavrayskiy VII world map in braille,
shaded by real-time daylight (terminator and optional civil twilight), with the
current date and time.

## Layout

- `src/` — the library, verified with Verus:
  - `raster` — the bit-per-dot canvas and braille packing;
  - `coast` — the embedded land-ring wire format (base85, varints, zigzag
    deltas), with `coast_laws` proving that decoding inverts encoding;
  - `frame` — frames, layer composition, the clock row, and the ANSI diff and
    plain writers (their output is specified byte for byte); `compose_laws` —
    composition is pure, and more land dots never take land away;
  - `screen` — a model of the terminal the writers drive, and the proof that
    the ANSI output leaves exactly the new frame on screen with the right
    attributes; `writer_laws` — how many cells each writer writes;
  - `clock` — the date, time and zone label of the clock line;
  - `cli` — the `--interval` check and color resolution;
  - `control` — what keys and signals do, when frames are rebuilt, how long
    the loop waits;
  - `term` — terminal ownership and signal exit codes.
- `app/` — the program: argument parsing (clap), the floating-point projection,
  solar position and land rasterization, terminal I/O (crossterm), signals
  (signal-hook) and the event loop.
- `tests/` — tests of the library.
