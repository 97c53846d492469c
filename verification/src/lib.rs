//! A rules engine for chess: board model, per-piece move generation, a
//! check-safety legality filter, special moves (castling, en passant,
//! promotion), a game-state machine, and a decoder for algebraic notation.

pub mod game;
pub mod moves;
pub mod pgn;
