//! Chess game logic on top of cozy-chess: boards and moves, the history of
//! a game with undo and redo, standard algebraic notation, PGN, draw rules,
//! opening names, the UCI protocol spoken with Stockfish, a Fischer clock,
//! calendar dates for saved games, the settings file, and the decisions of
//! the playing application: which search to ask for, what to make of the
//! engine's replies, and how moves, takebacks and the clock interact.

pub mod text;
pub mod types;
pub mod fen;
pub mod cozy;
pub mod moves;
pub mod notation;
pub mod game;
pub mod pgn;
pub mod round_trip;
pub mod uci;
pub mod clock;
pub mod dates;
pub mod settings;
pub mod display;
pub mod material;
pub mod eval;
pub mod position;
pub mod link;
pub mod session;
pub mod openings;
pub mod order;
pub mod games;
pub mod cli;
