# audibian

A mixer for the PipeWire sound server: input strips (virtual sinks that
applications play into), return buses, sends between them, a master bus
looped to a hardware output, per-strip EQ, solo and mute, a port-level
routing matrix, saved profiles and a soundboard strip.

The decisions are a verified library; a small program around it talks to
the sound server and the file system.

## Layout

- `src/` — the library, verified with Verus.
  - `audio/` — the audio graph (nodes, ports, links) and the events that
    change it; registry properties turned into graph objects; EQ band and
    filter-chain configuration texts; names of the effect sinks and sources.
  - `mixer/` — the mixer configuration and its snapshots (levels and
    toggles saved in profiles).
  - `commands/` — what each mixer command changes and does: solo keys and
    effective mute, strip levels, adding and removing strips, sends and
    their loopbacks, the modules to load and the `pactl` arguments that
    load them, reading `pactl` output, drop-in configuration files, and the
    reactions to nodes appearing or going away.
  - `matrix_config.rs`, `patchbay.rs` — saved port links of the routing
    matrix and what the matrix view shows.
  - `profiles/` — profiles: capturing the graph's links and volumes by name
    and applying them back; settings paths and the autostart entry.
  - `soundboard.rs`, `text.rs`, `seqs.rs` — the soundboard, text helpers
    (decimal numbers, trimming, lines, paths) and sequence helpers.
- `app/` — the program: the sound-server monitor and level meters, running
  `pactl`, `pw-link` and filter-chain processes, configuration files,
  floating-point EQ curves and levels, and a line-based JSON command
  interface for the front end.
- `tests/` — tests of the library on concrete values.

Levels (fader, pan, send level, scale) are kept in the library as the bit
patterns of `f32` values and EQ band numbers as those of `f64` values; the
program converts and does all floating-point arithmetic.
