# chrusty

A chess engine's core as a verified library: board queries, move ordering, static exchange
evaluation, repetition detection, transposition table, history heuristics, the integer part
of the NNUE evaluation (accumulators, threat features, activation, first layer) and the
neuron-ordering tool, each function with a contract that Verus proves.

- `src/` — the library, written in Verus. Move generation, single-piece attack tables and
  board set-up come from `cozy-chess`, FEN and UCI move reading of the `position` command from
  `shakmaty`, and fixed-capacity lists from `arrayvec`, through small trusted wrappers whose
  contracts state what those crates compute.
- `app/` — the program around it: the UCI loop (`rustyline`), reading the network
  file, the floating-point layers of the evaluation, tablebase probing (`pyrrhic-rs`) and the
  sampling of training data (`sfbinpack`).
- `tests/` — tests of the library on concrete positions and values.
