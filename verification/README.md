# dual_nback

The verified core of a dual n-back working-memory trainer (Brain Workshop's
standard mode): each trial shows a square in one of 8 grid cells and speaks
one of 8 letters, and the player reports repeats from n trials back.

- `src/` — the library, verified with Verus:
  - `game` — stimulus values, tallies and percentages, results, the adaptive
    leveling rule and its laws.
  - `stimuli` — stimulus generation (forced matches, interference lures) over
    `rand`'s `StdRng`.
  - `session` — the session state machine (time in whole milliseconds,
    presses, misses, scoring) with a mathematical model and its laws.
  - `config` — settings, the level controls and the end-of-session update.
  - `stats` — the session history and its aggregates (`chrono` for "now").
  - `play` — the per-frame controller: countdown, pause, keys and feedback.
- `tests/` — tests run against the compiled library.
- `app/` — the egui program: drawing, input, audio (rodio/hound), and JSON
  storage of settings and history (serde).

The spoken-letter recordings are read at run time from
`assets/sounds/letters/<letter>.wav`; without them the tone set plays.
