# c4e5chess

The decision logic of the C4-E5 chess engine, a UCI engine, written in Verus
and verified. Positions, FEN and move generation come from `cozy_chess`; this
crate holds what the engine decides around them.

Library (`src/`):

- `types` – the engine's number types and tuning constants.
- `text` – splitting lines into words and reading decimal numbers, proved
  against specifications of `str::split_whitespace` and `str::parse`.
- `chess` – positions, held as FEN text, and the calls into `cozy_chess`
  with what is stated of them.
- `history` – the positions a game has passed through.
- `time_management` – how much of the clock goes to the next move.
- `game` – a game and its root search driver (`Game::find_move`).
- `search` – the iterative deepening controller: evening out scores, stable
  ranking, forward pruning, node counting.
- `uci` – the UCI command interpreter (`Cli`).
- `engine` – the engine API for a browser page (`ChessEngine`).

The score of a single root move at a given depth is supplied by the caller of
`Game::find_move`, together with a flag that tells whether time is left.

Program (`app/`): the UCI loop on standard input and output, the move timer,
and a root-move scorer.
