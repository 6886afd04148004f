//! A board behind the interface that a host drives: tokens in and out,
//! players and actions as small integers.

use vstd::prelude::*;
use crate::board::{BoardState, MoveError, Position};

verus! {

/// A board owned by the host. All that crosses its interface are 75-byte
/// tokens, masks and small integers.
pub struct SantoriniBoard {
    state: BoardState,
}

impl View for SantoriniBoard {
    type V = Position;

    closed spec fn view(&self) -> Position {
        self.state@
    }
}

impl SantoriniBoard {
    /// The empty board at round 0.
    pub fn new() -> (board: SantoriniBoard)
        ensures
            board@ == BoardState::new_view(),
            board@.well_formed(),
    {
        SantoriniBoard { state: BoardState::new() }
    }

    /// The token of the board.
    pub fn get_state(&self) -> (bytes: Vec<i8>)
        ensures
            bytes@ == self@.encode(),
    {
        self.state.to_vec()
    }

    /// Replaces the board by the one that `data` stands for.
    pub fn set_state(&mut self, data: Vec<i8>)
        requires
            data@.len() == 75,
        ensures
            final(self)@ == Position::decode(data@),
    {
        self.state = BoardState::from_vec(data.as_slice());
    }

    /// Clears the board and the round counter.
    pub fn reset(&mut self)
        ensures
            final(self)@ == BoardState::new_view(),
    {
        self.state.reset();
    }

    /// The value of the game if it is over with `next_player` to act: `1`
    /// where player 0 has won, `-1` where player 1 has; `None` while the
    /// game goes on.
    pub fn maybe_terminal_score(&self, next_player: u8) -> (value: Option<i8>)
        ensures
            match value {
                Some(v) => self@.result(next_player as int) == Some(v as int),
                None => self@.result(next_player as int) is None,
            },
    {
        self.state.result_value(next_player as usize)
    }

    /// The legality mask of `player`, one byte per action: 1 where the
    /// action is legal and 0 where it is not.
    pub fn valid_moves(&self, player: u8) -> (mask: Vec<u8>)
        ensures
            mask@.len() == 162,
            forall|a: int|
                0 <= a < 162 ==> #[trigger] mask@[a] == (if self@.legal(player as int, a) {
                    1u8
                } else {
                    0u8
                }),
    {
        let mut flags: [bool; 162] = [false;162];
        self.state.valid_moves(player as usize, &mut flags);
        mask_bytes(&flags)
    }

    /// Applies `action` for `player` and returns the player who acts next;
    /// see [`BoardState::make_move`].
    pub fn apply_move(&mut self, action: u16, player: u8) -> (outcome: Result<u8, MoveError>)
        requires
            player <= 1,
        ensures
            match old(self)@.apply(action as int, player as int) {
                Ok(next) => outcome == Ok::<u8, MoveError>(next.1 as u8) && final(self)@ == next.0
                    && 0 <= next.1 <= 1,
                Err(reason) => outcome == Err::<u8, MoveError>(reason) && final(self)@ == old(
                    self,
                )@,
            },
    {
        match self.state.make_move(action as usize, player as usize) {
            Ok(next) => Ok(next as u8),
            Err(reason) => Err(reason),
        }
    }

    /// The round counter.
    pub fn round(&self) -> (round: u16)
        ensures
            round == self@.round,
    {
        self.state.round()
    }

    /// The token of the board as `player` sees it.
    pub fn canonical_state(&self, player: u8) -> (bytes: Vec<i8>)
        requires
            player != 0 ==> self@.flippable(),
        ensures
            bytes@ == self@.canonical(player as int).encode(),
    {
        self.state.canonicalised(player as usize).to_vec()
    }

    /// The highest level under a worker of `player`; 0 where the player has
    /// no worker on a higher level.
    pub fn score_for(&self, player: u8) -> (highest: i8)
        ensures
            self@.is_score(player as int, highest as int),
    {
        self.state.score_for(player as usize)
    }

    /// A copy of the board inside.
    pub fn clone_internal(&self) -> (state: BoardState)
        ensures
            state@ == self@,
    {
        self.state
    }
}

/// A mask as bytes: 1 for a set entry, 0 for a clear one.
pub fn mask_bytes(flags: &[bool; 162]) -> (mask: Vec<u8>)
    ensures
        mask@.len() == 162,
        forall|a: int|
            0 <= a < 162 ==> #[trigger] mask@[a] == (if flags@[a] {
                1u8
            } else {
                0u8
            }),
{
    let mut mask: Vec<u8> = Vec::with_capacity(162);
    let mut action: usize = 0;
    while action < 162
        invariant
            action <= 162,
            mask@.len() == action,
            forall|a: int|
                0 <= a < action ==> #[trigger] mask@[a] == (if flags@[a] {
                    1u8
                } else {
                    0u8
                }),
        decreases 162 - action,
    {
        mask.push(
            if flags[action] {
                1
            } else {
                0
            },
        );
        action = action + 1;
    }
    mask
}

} // verus!
