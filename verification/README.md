# bogochess

A simple chess engine that talks to a graphical interface through a subset of
the UCI protocol. Its move generation, the reading of positions and commands,
and perft are written in Verus and proved against their specifications.

## Layout

- `src/engine/` — the bitboard engine: the model (squares, bitboards, packed
  moves, game states), the rules (move generation, attacks, check), what play
  keeps (`rules/playable.rs`), the clocks of a search, move ordering, Zobrist
  keys and the table of positions searched before (generic over its scores).
- `src/uci/` — reading text: words and numbers, positions in Forsyth-Edwards
  Notation with the moves played from them, and the interface's commands.
- `src/utils/perft.rs` — perft for the bitboard engine.
- `src/chess.rs`, `src/chess/` and `src/perft.rs` — the first engine, with a
  board of squares, and its perft.
- `app/` — the program: the command loop, the search and the evaluation,
  which score positions with floating-point numbers.
- `tests/` — perft counts of well-known positions, taking moves back, and
  scenarios for each part of the library.

## Laws

Among what is proved: taking back a move restores the state it was made in;
a legal move made in a position play can go on from leads to another such
position; a pseudo-legal move is fixed by its origin, destination and
promotion; move generation lists each move once; perft counts the leaves of
the tree of legal moves; a position stored in the table is found again.
