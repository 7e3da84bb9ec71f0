# weiawaga

A UCI chess engine whose core is verified with Verus.

- `src/` is the verified library: bitboards and attack sets, the board with its Zobrist
  hashes and move history, FEN reading and writing, move generation, perft, the
  hand-written evaluation, the NNUE evaluation (computed from the board on each call), the
  transposition table, the alpha-beta search with quiescence, the clock rules, and the
  parsing of UCI commands, all verified by Verus. The readings of the clock and of the
  flags shared with the command thread carry no contract: what they give is up to the
  machine and the other thread.
- `app/main.rs` is the engine program: the UCI loop, the thread that runs searches, reading
  the network file (from `EVALFILE`, else `network.bin`; the library decodes it; without it
  the hand-written evaluation is used), and the floating-point parts (late move reduction table, time
  scaling, win/draw/loss display).
- `tests/` holds the tests, run against the compiled library.
