//! Verified core of a Santorini engine (no god powers): the game kernel and
//! the driver of a Monte-Carlo tree search over it.
//!
//! * [`action`] — the 162-wide action space and the nine directions.
//! * [`board`] — the board, its 75-byte token, legality, transitions, the
//!   end of the game and the change of perspective.
//! * [`laws`] — what holds of the rules on every board.
//! * [`host`] — a board behind the interface that a host drives.
//! * [`node`] — the statistics of one board, and the choices made on them.
//! * [`table`] — the transposition table.
//! * [`mcts`] — the search driver.
//! * [`search_laws`] — what holds of the driver on every tree and walk.
//! * [`rng`] — the random source.
//!
//! The evaluator that judges boards, and all arithmetic on its numbers, are
//! the caller's. Every executable function here carries a contract over a
//! mathematical model of the data it touches, and Verus proves the
//! contracts.

use vstd::prelude::*;

pub mod action;
pub mod board;
pub mod host;
pub mod laws;
pub mod mcts;
pub mod node;
pub mod rng;
pub mod search_laws;
pub mod table;

pub use action::{decode_action, encode_action, ACTION_SIZE, PLACEMENT_ACTIONS};
pub use board::{BoardState, MoveError, STATE_SIZE};
pub use host::SantoriniBoard;
pub use mcts::{MctsConfig, SantoriniMcts, SearchError, SEARCH_RESULT_VERSION};

verus! {

/// Length of a board token.
pub fn state_size() -> (size: usize)
    ensures
        size == 75,
{
    STATE_SIZE
}

/// Width of the action space.
pub fn action_size() -> (size: usize)
    ensures
        size == 162,
{
    ACTION_SIZE
}

} // verus!
