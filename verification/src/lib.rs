//! A two-player chess rules engine: it owns the board state, validates and
//! applies moves, computes attacked-square maps, and decides checkmate.
//!
//! The rule set is deliberately reduced: no castling, no en passant, no
//! promotion, no draw rules; a side with no legal moves while its king is
//! attacked has lost, and that is the only terminal state.
#![allow(unused_imports)]
#![verifier::loop_isolation(false)]

use vstd::prelude::*;

pub mod board;
pub mod coord;
pub mod game;
pub mod laws;
pub mod movegen;
pub mod rules;
