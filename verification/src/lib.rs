//! A 2048 board engine with an automated player.
//!
//! The rules of the board, the moves, the heuristic and the turn that each
//! frame takes are proved against their contracts. Two things come from
//! outside and are taken on trust, each behind a few small functions that say
//! what is assumed of them: the search for the best move, which is the
//! `minimax` crate's (see [`search`] and [`game`]), and the random numbers,
//! which are the `rand` crate's.

pub mod board;
mod chance;
pub mod evaluators;
pub mod game;
pub mod laws;
pub mod line;
pub mod search;
pub mod tile;
pub mod turn;
