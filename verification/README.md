# Checksmith

A classical chess engine whose logic is verified with Verus.

- `src/board`: squares, pieces, bitboards, Zobrist hashing, FEN.
- `src/movegen`: attacks, move generation, making and taking back moves, the
  rules of legal play, perft.
- `src/eval`: the hand-crafted evaluation. `src/nnue`: a quantised network that
  can take its place, and its file format.
- `src/search`: move ordering, static exchange evaluation, the transposition
  table, time management, quiescence, the alpha-beta search, iterative
  deepening. `search/model.rs` says what the search computes; the executable
  search is proved to compute exactly that while nothing stops it, for every
  sequence of tablebase answers, and to be stopped only by its flag, its deadline
  or its node limit.
- `src/tablebase.rs`: Syzygy tablebases, read through `shakmaty_syzygy`.
- `src/book`: Polyglot opening books. `src/uci`: moves in UCI notation.
- `src/epd`, `src/bench`, `src/debug`: test suites, benchmarks and checks of the
  search.
- `src/selfplay`: games and matches between engines.
- `app`: the command-line program: files, processes, threads, printing, and what
  is computed in floating point.

A position is modelled by `Pos`; a `Board` is well-formed when its bitboards
agree with the mailbox. Positions that play can go on from are `valid`, and legal
play leads from valid positions to valid ones.
