# chess_core

The logic of a chess program that plays against a local Stockfish, as a
library whose functions carry contracts checked by Verus.

- `src/` is the library. Move generation and legality come from cozy-chess;
  every call into it goes through the few trusted functions of
  `src/cozy.rs`, which hand it a FEN and read the answer back as plain
  values. Everything else is verified: FEN writing, SAN and UCI reading and
  writing, the game history with undo and redo, draw rules, PGN reading and
  writing, the UCI command and reply texts, the clock, dates, settings,
  the opening table, and the application's state machine (`session.rs`).
  Besides the contracts, proof functions named `law_*` state what holds
  across calls: undo and redo, a game's start kept by every move, the
  settings file read back, the clock, the
  calendar, the opening table's keys, every legal move's SAN read back as
  that move (`notation.rs`), and a game's PGN read back as that game
  (`round_trip.rs`). The two read-back laws need facts about cozy-chess's
  move list that only a call shows, so they are also stated where the calls
  are made: `legal_moves` and `format_move_san` state the SAN law for every
  well-formed board, and `GameHistory::pgn_with` states the PGN law for
  every game whose start is the initial position or a position set up
  otherwise whose FEN cozy-chess reads (`GameHistory::from_fen` refuses
  any other), when the tag values hold no line feed. A start with the
  initial placement and other clocks is written without a FEN tag, and so
  reads back with the initial clocks.
- `app/` is the command-line program: the prompt loop, the Stockfish
  process, files and the environment.
- `tests/` runs the library on concrete games and positions, perft included.

The opening names come from a tab-separated table (ECO code, name, moves
in PGN) read at start-up from `data/openings.tsv` or the file named by
`CHESS_OPENINGS`.
