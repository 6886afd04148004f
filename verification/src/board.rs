//! The board: twenty-five cells, each with at most one worker and a building
//! level, and a counter of the actions committed so far.
//!
//! Worker values are `0` for an empty cell, `1` and `2` for the workers of
//! player 0, `-1` and `-2` for those of player 1. Levels run from 0 to 3;
//! level 4 is a dome. The round counter stops at 127.
//!
//! The rules are stated once, over [`Position`], the mathematical model of a
//! board; [`BoardState`] is the executable board and every method of it is
//! specified by what it does to that model.

use vstd::prelude::*;
use crate::action::{
    action_build, action_index, action_move, action_worker, apply_direction, cell_index,
    decode_action, decode_inverts_encode, encode_action, idx, on_board, step, step_on_board,
    ACTION_SIZE, PLACEMENT_ACTIONS, STAY,
};

verus! {

/// Bytes per cell in the serialised board.
pub const CHANNELS: usize = 3;

/// Length of the serialised board.
pub const STATE_SIZE: usize = 75;

/// Number of players.
pub const NUM_PLAYERS: usize = 2;

/// Where the round counter stops.
pub const MAX_ROUND: u16 = 127;

/// The level of a dome.
pub const DOME: i8 = 4;

/// Why an action could not be applied. The first four are faults of the
/// caller's input; the last two mean that the board itself is not one that
/// play can reach.
#[derive(Clone, Copy, Debug, PartialEq, Eq, Structural)]
pub enum MoveError {
    /// The action index is 162 or more.
    ActionOutOfRange,
    /// A worker is still to be placed and the action is not a cell index.
    PlacementOutOfRange,
    /// A worker is still to be placed, and it belongs to the other player.
    WrongPlayer,
    /// The cell chosen for a placement already holds a worker.
    Occupied,
    /// The worker that the action names is not on the board.
    MissingWorker,
    /// The move direction leads off the board.
    OffBoard,
}

/// The mathematical model of a board.
pub struct Position {
    /// Worker value of each cell, row-major.
    pub workers: Seq<i8>,
    /// Level of each cell, row-major.
    pub levels: Seq<i8>,
    /// Number of committed actions, stopping at 127.
    pub round: nat,
}

/// The value that stands for `worker` (0 or 1) of `player` on the board.
/// Every player other than 0 counts as player 1.
pub open spec fn worker_id(player: int, worker: int) -> int {
    if player == 0 {
        worker + 1
    } else {
        -(worker + 1)
    }
}

/// The level of a cell after one more storey: one higher, and a dome at most.
pub open spec fn raised(level: i8) -> i8 {
    if level >= 4 {
        4i8
    } else {
        (level + 1) as i8
    }
}

/// The round counter after one more committed action.
pub open spec fn next_round(round: nat) -> nat {
    if round < 127 {
        round + 1
    } else {
        round
    }
}

impl Position {
    /// Both grids have one entry per cell.
    pub open spec fn shaped(self) -> bool {
        self.workers.len() == 25 && self.levels.len() == 25
    }

    /// The invariants of a board that play can reach: worker values are
    /// among `-2..=2`, no worker stands on two cells, levels are among
    /// `0..=4`, and the round counter is at most 127.
    pub open spec fn well_formed(self) -> bool {
        &&& self.shaped()
        &&& self.round <= 127
        &&& forall|c: int| 0 <= c < 25 ==> -2 <= #[trigger] self.workers[c] <= 2
        &&& forall|c: int| 0 <= c < 25 ==> 0 <= #[trigger] self.levels[c] <= 4
        &&& forall|c: int, d: int|
            0 <= c < d < 25 && #[trigger] self.workers[c] != 0 ==> self.workers[c]
                != #[trigger] self.workers[d]
    }

    /// No worker value is the one value that has no negation in a byte.
    pub open spec fn flippable(self) -> bool {
        forall|c: int| 0 <= c < self.workers.len() ==> #[trigger] self.workers[c] != i8::MIN
    }

    /// The 75-byte token of the board: for cell `i`, the worker value, the
    /// level, and then the round counter for cell 0 and zero for the others.
    pub open spec fn encode(self) -> Seq<i8> {
        Seq::new(
            75,
            |k: int|
                if k % 3 == 0 {
                    self.workers[k / 3]
                } else if k % 3 == 1 {
                    self.levels[k / 3]
                } else if k == 2 {
                    (if self.round < 127 {
                        self.round
                    } else {
                        127
                    }) as i8
                } else {
                    0i8
                },
        )
    }

    /// The board that a 75-byte token stands for. A negative round byte
    /// reads as round 0.
    pub open spec fn decode(bytes: Seq<i8>) -> Position {
        Position {
            workers: Seq::new(25, |c: int| bytes[3 * c]),
            levels: Seq::new(25, |c: int| bytes[3 * c + 1]),
            round: if bytes[2] < 0 {
                0nat
            } else {
                bytes[2] as nat
            },
        }
    }

    /// Whether some cell holds the worker value `id`.
    pub open spec fn has_worker(self, id: int) -> bool {
        exists|c: int| 0 <= c < 25 && #[trigger] self.workers[c] == id
    }

    /// Whether `cell` is the first cell, in row-major order, that holds the
    /// worker value `id`.
    pub open spec fn is_cell_of(self, id: int, cell: int) -> bool {
        &&& 0 <= cell < 25
        &&& self.workers[cell] == id
        &&& forall|d: int| 0 <= d < cell ==> #[trigger] self.workers[d] != id
    }

    /// The first cell that holds the worker value `id`, where there is one.
    pub open spec fn cell_of(self, id: int) -> int {
        choose|cell: int| self.is_cell_of(id, cell)
    }

    /// The worker that is placed next and its owner, as `(owner, id)`:
    /// the first of 1, 2, -1, -2 that is not on the board. `None` once all
    /// four are placed.
    pub open spec fn pending(self) -> Option<(int, int)> {
        if !self.has_worker(1) {
            Some((0int, 1int))
        } else if !self.has_worker(2) {
            Some((0int, 2int))
        } else if !self.has_worker(-1) {
            Some((1int, -1int))
        } else if !self.has_worker(-2) {
            Some((1int, -2int))
        } else {
            None
        }
    }

    /// Whether `cell` holds a worker of `player`.
    pub open spec fn owned(self, cell: int, player: int) -> bool {
        if player == 0 {
            self.workers[cell] > 0
        } else {
            self.workers[cell] < 0
        }
    }

    /// Whether a worker on `from` may step onto `to`: the cell is empty, is
    /// no dome, and lies at most one level higher.
    pub open spec fn can_step(self, from: int, to: int) -> bool {
        &&& self.workers[to] == 0
        &&& self.levels[to] <= 3
        &&& self.levels[to] <= self.levels[from] + 1
    }

    /// Whether the worker that came from `origin` may build on `cell`: the
    /// cell is empty or is the one just left, and is no dome.
    pub open spec fn can_build(self, cell: int, origin: int) -> bool {
        &&& self.workers[cell] == 0 || cell == origin
        &&& self.levels[cell] < 4
    }

    /// Whether `worker` of `player` may move in `move_direction` and then
    /// build in `build_direction`.
    pub open spec fn move_legal(
        self,
        player: int,
        worker: int,
        move_direction: int,
        build_direction: int,
    ) -> bool {
        let id: int = worker_id(player, worker);
        let from: int = self.cell_of(id);
        let to: int = step(from, move_direction);
        &&& self.has_worker(id)
        &&& 0 <= move_direction < 9 && move_direction != 4
        &&& 0 <= build_direction < 9 && build_direction != 4
        &&& step_on_board(from, move_direction)
        &&& self.can_step(from, to)
        &&& step_on_board(to, build_direction)
        &&& self.can_build(step(to, build_direction), from)
    }

    /// Whether `action` is legal for `player`. While a worker is still to
    /// be placed the legal actions are the empty cells; afterwards they are
    /// the legal moves of the player's two workers.
    pub open spec fn legal(self, player: int, action: int) -> bool {
        if self.pending() is Some {
            0 <= action < 25 && self.workers[action] == 0
        } else {
            &&& 0 <= action < 162
            &&& self.move_legal(
                player,
                action_worker(action),
                action_move(action),
                action_build(action),
            )
        }
    }

    /// The legality mask of `player`: one entry per action, set where the
    /// action is legal.
    pub open spec fn mask(self, player: int) -> Seq<bool> {
        Seq::new(162, |action: int| self.legal(player, action))
    }

    /// Whether `player` has a legal action.
    pub open spec fn has_legal(self, player: int) -> bool {
        exists|action: int| 0 <= action < 162 && #[trigger] self.legal(player, action)
    }

    /// The board after the worker value `id` is put on `cell`.
    pub open spec fn placed(self, cell: int, id: int) -> Position {
        Position {
            workers: self.workers.update(cell, id as i8),
            levels: self.levels,
            round: next_round(self.round),
        }
    }

    /// The board after the worker `id` on `from` moves in `move_direction`
    /// and builds in `build_direction`. Nothing is built in direction 4 or
    /// off the board.
    pub open spec fn moved(
        self,
        id: int,
        from: int,
        move_direction: int,
        build_direction: int,
    ) -> Position {
        let to: int = step(from, move_direction);
        let site: int = step(to, build_direction);
        Position {
            workers: self.workers.update(from, 0i8).update(to, id as i8),
            levels: if build_direction != 4 && step_on_board(to, build_direction) {
                self.levels.update(site, raised(self.levels[site]))
            } else {
                self.levels
            },
            round: next_round(self.round),
        }
    }

    /// What applying `action` for `player` does: the new board and the
    /// player who acts next, or the reason why the action is refused.
    ///
    /// A placement puts the pending worker on the cell that the action
    /// names; the next to act is the owner of the worker that is pending
    /// afterwards, or the opponent where none is. A movement is not held
    /// to the rules of [`Position::legal`]: any action whose worker is on
    /// the board and whose move stays on the board is carried out.
    pub open spec fn apply(self, action: int, player: int) -> Result<(Position, int), MoveError> {
        match self.pending() {
            Some((owner, id)) => {
                if action >= 25 {
                    Err(MoveError::PlacementOutOfRange)
                } else if owner != player {
                    Err(MoveError::WrongPlayer)
                } else if self.workers[action] != 0 {
                    Err(MoveError::Occupied)
                } else {
                    let after: Position = self.placed(action, id);
                    Ok(
                        (
                            after,
                            match after.pending() {
                                Some((next_owner, _)) => next_owner,
                                None => 1 - owner,
                            },
                        ),
                    )
                }
            },
            None => {
                let id: int = worker_id(player, action_worker(action));
                let from: int = self.cell_of(id);
                if action >= 162 {
                    Err(MoveError::ActionOutOfRange)
                } else if !self.has_worker(id) {
                    Err(MoveError::MissingWorker)
                } else if !step_on_board(from, action_move(action)) {
                    Err(MoveError::OffBoard)
                } else {
                    Ok((self.moved(id, from, action_move(action), action_build(action)), 1 - player))
                }
            },
        }
    }

    /// Whether a worker of `player` stands on a cell of level 3.
    pub open spec fn stands_on_three(self, player: int) -> bool {
        exists|c: int| 0 <= c < 25 && #[trigger] self.owned(c, player) && self.levels[c] == 3
    }

    /// The value of a finished game with `next_player` to act, seen by
    /// player 0: `1` where player 0 has won, `-1` where player 1 has.
    /// `None` while the game goes on, and always while a worker is still to
    /// be placed. A player who stands on level 3 has won; failing that, a
    /// player who must act and has no legal action has lost.
    pub open spec fn result(self, next_player: int) -> Option<int> {
        if self.pending() is Some {
            None
        } else if self.stands_on_three(0) {
            Some(1int)
        } else if self.stands_on_three(1) {
            Some(-1int)
        } else if !self.has_legal(next_player) {
            Some(
                if next_player == 0 {
                    -1int
                } else {
                    1int
                },
            )
        } else {
            None
        }
    }

    /// Whether `score` is the highest level under a worker of `player`, or
    /// 0 where the player has no worker on a level above 0.
    pub open spec fn is_score(self, player: int, score: int) -> bool {
        &&& 0 <= score
        &&& forall|c: int| 0 <= c < 25 && #[trigger] self.owned(c, player) ==> self.levels[c] <= score
        &&& score == 0 || exists|c: int|
            0 <= c < 25 && #[trigger] self.owned(c, player) && self.levels[c] == score
    }

    /// The board as `player` sees it: unchanged for player 0, with the
    /// sign of every worker value reversed for any other player.
    pub open spec fn canonical(self, player: int) -> Position {
        if player == 0 {
            self
        } else {
            Position {
                workers: Seq::new(self.workers.len(), |c: int| (-self.workers[c]) as i8),
                levels: self.levels,
                round: self.round,
            }
        }
    }
}

/// The executable board.
#[derive(Clone, Copy, Debug)]
pub struct BoardState {
    /// Worker value of each cell, row-major.
    pub workers: [i8; 25],
    /// Level of each cell, row-major.
    pub levels: [i8; 25],
    /// Number of committed actions, stopping at 127.
    pub round: u16,
}

impl View for BoardState {
    type V = Position;

    open spec fn view(&self) -> Position {
        Position { workers: self.workers@, levels: self.levels@, round: self.round as nat }
    }
}

impl BoardState {
    /// The empty board at round 0.
    pub fn new() -> (board: BoardState)
        ensures
            board@.workers == Seq::new(25, |c: int| 0i8),
            board@.levels == Seq::new(25, |c: int| 0i8),
            board@.round == 0,
            board@.well_formed(),
    {
        let board = BoardState { workers: [0i8;25], levels: [0i8;25], round: 0 };
        assert(board@.workers =~= Seq::new(25, |c: int| 0i8));
        assert(board@.levels =~= Seq::new(25, |c: int| 0i8));
        board
    }

    /// Clears the board and the round counter.
    pub fn reset(&mut self)
        ensures
            final(self)@ == BoardState::new_view(),
            final(self)@.well_formed(),
    {
        *self = BoardState::new();
        assert(self@.workers =~= BoardState::new_view().workers);
        assert(self@.levels =~= BoardState::new_view().levels);
    }

    /// The model of the empty board.
    pub open spec fn new_view() -> Position {
        Position {
            workers: Seq::new(25, |c: int| 0i8),
            levels: Seq::new(25, |c: int| 0i8),
            round: 0,
        }
    }

    /// The round counter.
    pub fn round(&self) -> (round: u16)
        ensures
            round == self@.round,
    {
        self.round
    }

    /// The 75-byte token of the board.
    pub fn as_bytes(&self) -> (flat: [i8; 75])
        ensures
            flat@ == self@.encode(),
    {
        let mut flat: [i8; 75] = [0i8;75];
        let mut cell: usize = 0;
        while cell < 25
            invariant
                cell <= 25,
                forall|k: int| 0 <= k < 3 * cell ==> #[trigger] flat@[k] == self@.encode()[k],
            decreases 25 - cell,
        {
            let cursor: usize = 3 * cell;
            flat[cursor] = self.workers[cell];
            flat[cursor + 1] = self.levels[cell];
            flat[cursor + 2] = if cell == 0 {
                if self.round < 127 {
                    self.round as i8
                } else {
                    127i8
                }
            } else {
                0i8
            };
            cell = cell + 1;
        }
        assert(flat@ =~= self@.encode());
        flat
    }

    /// The key under which a search files the board: its token.
    pub fn key(&self) -> (flat: [i8; 75])
        ensures
            flat@ == self@.encode(),
    {
        self.as_bytes()
    }

    /// The token of the board as a vector.
    pub fn to_vec(&self) -> (bytes: Vec<i8>)
        ensures
            bytes@ == self@.encode(),
    {
        let flat: [i8; 75] = self.as_bytes();
        let mut bytes: Vec<i8> = Vec::with_capacity(75);
        let mut k: usize = 0;
        while k < 75
            invariant
                k <= 75,
                bytes@.len() == k,
                forall|j: int| 0 <= j < k ==> #[trigger] bytes@[j] == flat@[j],
            decreases 75 - k,
        {
            bytes.push(flat[k]);
            k = k + 1;
        }
        assert(bytes@ =~= flat@);
        bytes
    }

    /// Writes the token of the board over `target`.
    pub fn write_into_slice(&self, target: &mut [i8])
        requires
            old(target)@.len() == 75,
        ensures
            final(target)@ == self@.encode(),
    {
        let flat: [i8; 75] = self.as_bytes();
        let mut k: usize = 0;
        while k < 75
            invariant
                k <= 75,
                target@.len() == 75,
                forall|j: int| 0 <= j < k ==> #[trigger] target@[j] == flat@[j],
            decreases 75 - k,
        {
            target[k] = flat[k];
            k = k + 1;
        }
        assert(target@ =~= flat@);
    }

    /// Reads a board from its 75-byte token. Nothing but the length is
    /// asked of the token: worker values and levels are taken as they come.
    pub fn from_bytes(bytes: &[i8]) -> (board: BoardState)
        requires
            bytes@.len() == 75,
        ensures
            board@ == Position::decode(bytes@),
            board@.round <= 127,
    {
        let mut board = BoardState::new();
        let mut cell: usize = 0;
        while cell < 25
            invariant
                cell <= 25,
                bytes@.len() == 75,
                board.round == 0,
                forall|c: int| 0 <= c < cell ==> #[trigger] board.workers@[c] == bytes@[3 * c],
                forall|c: int| 0 <= c < cell ==> #[trigger] board.levels@[c] == bytes@[3 * c + 1],
            decreases 25 - cell,
        {
            let cursor: usize = 3 * cell;
            board.workers[cell] = bytes[cursor];
            board.levels[cell] = bytes[cursor + 1];
            cell = cell + 1;
        }
        let round_byte: i8 = bytes[2];
        board.round = if round_byte < 0 {
            0
        } else {
            round_byte as u16
        };
        assert(board@.workers =~= Position::decode(bytes@).workers);
        assert(board@.levels =~= Position::decode(bytes@).levels);
        board
    }

    /// Reads a board from its 75-byte token.
    pub fn from_vec(data: &[i8]) -> (board: BoardState)
        requires
            data@.len() == 75,
        ensures
            board@ == Position::decode(data@),
            board@.round <= 127,
    {
        BoardState::from_bytes(data)
    }

    /// Whether the sign of every worker value can be reversed.
    pub fn is_flippable(&self) -> (ok: bool)
        ensures
            ok == self@.flippable(),
    {
        let mut cell: usize = 0;
        while cell < 25
            invariant
                cell <= 25,
                forall|c: int| 0 <= c < cell ==> #[trigger] self.workers@[c] != i8::MIN,
            decreases 25 - cell,
        {
            if self.workers[cell] == i8::MIN {
                assert(self@.workers[cell as int] == i8::MIN);
                return false;
            }
            cell = cell + 1;
        }
        true
    }

    /// The board as `player` sees it: a copy for player 0, a copy with the
    /// sign of every worker value reversed for any other player.
    pub fn canonicalised(&self, player: usize) -> (flipped: BoardState)
        requires
            player != 0 ==> self@.flippable(),
        ensures
            flipped@ == self@.canonical(player as int),
    {
        if player == 0 {
            *self
        } else {
            let mut clone: BoardState = *self;
            let mut cell: usize = 0;
            while cell < 25
                invariant
                    cell <= 25,
                    self@.flippable(),
                    clone.levels == self.levels,
                    clone.round == self.round,
                    forall|c: int| 0 <= c < cell ==> #[trigger] clone.workers@[c] == -self.workers@[c],
                    forall|c: int| cell <= c < 25 ==> #[trigger] clone.workers@[c] == self.workers@[c],
                decreases 25 - cell,
            {
                let value: i8 = clone.workers[cell];
                assert(self@.workers[cell as int] != i8::MIN);
                clone.workers[cell] = -value;
                cell = cell + 1;
            }
            assert(clone@.workers =~= self@.canonical(player as int).workers);
            clone
        }
    }
}

/// The first cell that holds a worker value is the only cell that
/// [`Position::cell_of`] can name.
pub proof fn cell_of_is_first(position: Position, id: int, cell: int)
    requires
        position.is_cell_of(id, cell),
    ensures
        position.cell_of(id) == cell,
        position.has_worker(id),
{
    let chosen: int = position.cell_of(id);
    assert(position.is_cell_of(id, chosen));
    if chosen < cell {
        assert(position.workers[chosen] != id);
    }
    if cell < chosen {
        assert(position.workers[cell] != id);
    }
}

/// A worker value that is on the board has a first cell.
proof fn first_cell_exists(position: Position, id: int, bound: int)
    requires
        0 <= bound < 25,
        position.workers[bound] == id,
    ensures
        exists|cell: int| position.is_cell_of(id, cell),
    decreases bound,
{
    if exists|d: int| 0 <= d < bound && #[trigger] position.workers[d] == id {
        let d: int = choose|d: int| 0 <= d < bound && #[trigger] position.workers[d] == id;
        first_cell_exists(position, id, d);
    } else {
        assert(position.is_cell_of(id, bound));
    }
}

/// Where a worker value is on the board, [`Position::cell_of`] names the
/// first cell that holds it.
pub proof fn cell_of_holds_worker(position: Position, id: int)
    requires
        position.has_worker(id),
    ensures
        position.is_cell_of(id, position.cell_of(id)),
{
    let c: int = choose|c: int| 0 <= c < 25 && #[trigger] position.workers[c] == id;
    first_cell_exists(position, id, c);
}

impl BoardState {
    /// The first cell, in row-major order, that holds the worker value
    /// `worker`, as `(y, x)`.
    pub fn find_worker(&self, worker: i8) -> (found: Option<(usize, usize)>)
        ensures
            match found {
                Some(at) => {
                    &&& on_board(at.0 as int, at.1 as int)
                    &&& self@.is_cell_of(worker as int, cell_index(at.0 as int, at.1 as int))
                    &&& self@.cell_of(worker as int) == cell_index(at.0 as int, at.1 as int)
                    &&& self@.has_worker(worker as int)
                },
                None => !self@.has_worker(worker as int),
            },
    {
        let mut cell: usize = 0;
        while cell < 25
            invariant
                cell <= 25,
                forall|d: int| 0 <= d < cell ==> #[trigger] self@.workers[d] != worker,
            decreases 25 - cell,
        {
            if self.workers[cell] == worker {
                proof {
                    cell_of_is_first(self@, worker as int, cell as int);
                }
                return Some((cell / 5, cell % 5));
            }
            cell = cell + 1;
        }
        None
    }

    /// The worker that is placed next, as `(owner, id)`; `None` once all
    /// four workers are on the board.
    pub fn next_placement(&self) -> (pending: Option<(usize, i8)>)
        ensures
            match pending {
                Some(p) => self@.pending() == Some((p.0 as int, p.1 as int)),
                None => self@.pending() is None,
            },
    {
        if self.find_worker(1).is_none() {
            return Some((0, 1));
        }
        if self.find_worker(2).is_none() {
            return Some((0, 2));
        }
        if self.find_worker(-1).is_none() {
            return Some((1, -1));
        }
        if self.find_worker(-2).is_none() {
            return Some((1, -2));
        }
        None
    }

    /// Whether a worker on `old_pos` may step onto `new_pos`. Staying where
    /// it is counts as a step that is always open.
    pub fn can_move(&self, old_pos: (usize, usize), new_pos: (usize, usize)) -> (ok: bool)
        requires
            on_board(old_pos.0 as int, old_pos.1 as int),
            on_board(new_pos.0 as int, new_pos.1 as int),
        ensures
            ok == (old_pos == new_pos || self@.can_step(
                cell_index(old_pos.0 as int, old_pos.1 as int),
                cell_index(new_pos.0 as int, new_pos.1 as int),
            )),
    {
        if old_pos.0 == new_pos.0 && old_pos.1 == new_pos.1 {
            return true;
        }
        let target_index: usize = idx(new_pos.0, new_pos.1);
        if self.workers[target_index] != 0 {
            return false;
        }
        let new_level: i8 = self.levels[target_index];
        if new_level > 3 {
            return false;
        }
        let old_level: i8 = self.levels[idx(old_pos.0, old_pos.1)];
        new_level as i16 <= old_level as i16 + 1
    }

    /// Whether the worker that came from `origin` may build on `pos`.
    pub fn can_build(&self, pos: (usize, usize), origin: (usize, usize)) -> (ok: bool)
        requires
            on_board(pos.0 as int, pos.1 as int),
            on_board(origin.0 as int, origin.1 as int),
        ensures
            ok == self@.can_build(
                cell_index(pos.0 as int, pos.1 as int),
                cell_index(origin.0 as int, origin.1 as int),
            ),
    {
        let index: usize = idx(pos.0, pos.1);
        let occupant: i8 = self.workers[index];
        if occupant != 0 && !(pos.0 == origin.0 && pos.1 == origin.1) {
            return false;
        }
        self.levels[index] < 4
    }

    /// Marks in `out` the build directions that are open to a worker that
    /// came from `origin` and stands on `target` after moving in
    /// `move_direction`.
    fn mark_builds(
        &self,
        player: usize,
        worker: usize,
        move_direction: usize,
        origin: (usize, usize),
        target: (usize, usize),
        out: &mut [bool; 162],
    )
        requires
            worker < 2,
            move_direction < 9,
            move_direction != 4,
            self@.pending() is None,
            on_board(origin.0 as int, origin.1 as int),
            on_board(target.0 as int, target.1 as int),
            self@.has_worker(worker_id(player as int, worker as int)),
            self@.cell_of(worker_id(player as int, worker as int)) == cell_index(
                origin.0 as int,
                origin.1 as int,
            ),
            step_on_board(cell_index(origin.0 as int, origin.1 as int), move_direction as int),
            step(cell_index(origin.0 as int, origin.1 as int), move_direction as int)
                == cell_index(target.0 as int, target.1 as int),
            self@.can_step(
                cell_index(origin.0 as int, origin.1 as int),
                cell_index(target.0 as int, target.1 as int),
            ),
            forall|a: int|
                0 <= a < 162 ==> #[trigger] old(out)@[a] == (a < action_index(
                    worker as int,
                    move_direction as int,
                    0,
                ) && self@.legal(player as int, a)),
        ensures
            forall|a: int|
                0 <= a < 162 ==> #[trigger] final(out)@[a] == (a < action_index(
                    worker as int,
                    move_direction as int,
                    9,
                ) && self@.legal(player as int, a)),
    {
        let mut build_direction: usize = 0;
        while build_direction < 9
            invariant
                build_direction <= 9,
                worker < 2,
                move_direction < 9,
                move_direction != 4,
                self@.pending() is None,
                on_board(origin.0 as int, origin.1 as int),
                on_board(target.0 as int, target.1 as int),
                self@.has_worker(worker_id(player as int, worker as int)),
                self@.cell_of(worker_id(player as int, worker as int)) == cell_index(
                    origin.0 as int,
                    origin.1 as int,
                ),
                step_on_board(cell_index(origin.0 as int, origin.1 as int), move_direction as int),
                step(cell_index(origin.0 as int, origin.1 as int), move_direction as int)
                    == cell_index(target.0 as int, target.1 as int),
                self@.can_step(
                    cell_index(origin.0 as int, origin.1 as int),
                    cell_index(target.0 as int, target.1 as int),
                ),
                forall|a: int|
                    0 <= a < 162 ==> #[trigger] out@[a] == (a < action_index(
                        worker as int,
                        move_direction as int,
                        build_direction as int,
                    ) && self@.legal(player as int, a)),
            decreases 9 - build_direction,
        {
            let action: usize = encode_action(worker, move_direction, build_direction);
            let mut open: bool = false;
            if build_direction != STAY {
                match apply_direction(target, build_direction) {
                    Some(site) => {
                        open = self.can_build(site, origin);
                    },
                    None => {},
                }
            }
            proof {
                decode_inverts_encode(
                    worker as int,
                    move_direction as int,
                    build_direction as int,
                );
                assert(open == self@.move_legal(
                    player as int,
                    worker as int,
                    move_direction as int,
                    build_direction as int,
                ));
                assert(open == self@.legal(player as int, action as int));
            }
            out[action] = open;
            build_direction = build_direction + 1;
        }
    }

    /// Writes the legality mask of `player` into `out`: entry `a` is set
    /// exactly where action `a` is legal.
    pub fn valid_moves(&self, player: usize, out: &mut [bool; 162])
        ensures
            forall|a: int| 0 <= a < 162 ==> #[trigger] final(out)@[a] == self@.legal(player as int, a),
    {
        let mut cleared: usize = 0;
        while cleared < 162
            invariant
                cleared <= 162,
                forall|a: int| 0 <= a < cleared ==> #[trigger] out@[a] == false,
            decreases 162 - cleared,
        {
            out[cleared] = false;
            cleared = cleared + 1;
        }
        if self.next_placement().is_some() {
            let mut index: usize = 0;
            while index < 25
                invariant
                    index <= 25,
                    self@.pending() is Some,
                    forall|a: int| 0 <= a < index ==> #[trigger] out@[a] == (self@.workers[a] == 0),
                    forall|a: int| index <= a < 162 ==> #[trigger] out@[a] == false,
                decreases 25 - index,
            {
                out[index] = self.workers[index] == 0;
                index = index + 1;
            }
            return;
        }
        let mut worker: usize = 0;
        while worker < 2
            invariant
                worker <= 2,
                self@.pending() is None,
                forall|a: int|
                    0 <= a < 162 ==> #[trigger] out@[a] == (a < 81 * worker && self@.legal(
                        player as int,
                        a,
                    )),
            decreases 2 - worker,
        {
            let id: i8 = if player == 0 {
                worker as i8 + 1
            } else {
                -(worker as i8 + 1)
            };
            match self.find_worker(id) {
                None => {},
                Some(origin) => {
                    let mut move_direction: usize = 0;
                    while move_direction < 9
                        invariant
                            move_direction <= 9,
                            worker < 2,
                            id == worker_id(player as int, worker as int),
                            self@.pending() is None,
                            on_board(origin.0 as int, origin.1 as int),
                            self@.has_worker(id as int),
                            self@.cell_of(id as int) == cell_index(origin.0 as int, origin.1 as int),
                            forall|a: int|
                                0 <= a < 162 ==> #[trigger] out@[a] == (a < action_index(
                                    worker as int,
                                    move_direction as int,
                                    0,
                                ) && self@.legal(player as int, a)),
                        decreases 9 - move_direction,
                    {
                        let mut walked: bool = false;
                        if move_direction != STAY {
                            match apply_direction(origin, move_direction) {
                                Some(target) => {
                                    if self.can_move(origin, target) {
                                        self.mark_builds(
                                            player,
                                            worker,
                                            move_direction,
                                            origin,
                                            target,
                                            out,
                                        );
                                        walked = true;
                                    }
                                },
                                None => {},
                            }
                        }
                        assert(!walked ==> forall|a: int|
                            action_index(worker as int, move_direction as int, 0) <= a
                                < action_index(worker as int, move_direction as int, 9)
                                ==> !#[trigger] self@.legal(player as int, a));
                        move_direction = move_direction + 1;
                    }
                },
            }
            worker = worker + 1;
        }
    }

    /// Whether `player` has a legal action.
    pub fn has_any_valid_move(&self, player: usize) -> (any: bool)
        ensures
            any == self@.has_legal(player as int),
    {
        let mut mask: [bool; 162] = [false;162];
        self.valid_moves(player, &mut mask);
        let mut action: usize = 0;
        while action < 162
            invariant
                action <= 162,
                forall|a: int| 0 <= a < 162 ==> #[trigger] mask@[a] == self@.legal(player as int, a),
                forall|a: int| 0 <= a < action ==> !#[trigger] self@.legal(player as int, a),
            decreases 162 - action,
        {
            if mask[action] {
                assert(self@.legal(player as int, action as int));
                return true;
            }
            action = action + 1;
        }
        false
    }

    /// Counts one more committed action; the counter stops at 127.
    fn bump_round(&mut self)
        ensures
            final(self)@.round == next_round(old(self)@.round),
            final(self).workers == old(self).workers,
            final(self).levels == old(self).levels,
    {
        if self.round < 127 {
            self.round = self.round + 1;
        }
    }

    /// Applies `action` for `player` and returns the player who acts next.
    /// The board is left as it was where the action is refused.
    ///
    /// While a worker is still to be placed, the action names the cell to
    /// put it on. Afterwards it names a worker, a move and a build; the move
    /// is carried out as asked, without being held to the legality mask.
    pub fn make_move(&mut self, action: usize, player: usize) -> (outcome: Result<
        usize,
        MoveError,
    >)
        requires
            player <= 1,
        ensures
            match old(self)@.apply(action as int, player as int) {
                Ok(next) => outcome == Ok::<usize, MoveError>(next.1 as usize) && final(self)@
                    == next.0 && 0 <= next.1 <= 1,
                Err(reason) => outcome == Err::<usize, MoveError>(reason) && final(self)@ == old(
                    self,
                )@,
            },
    {
        match self.next_placement() {
            Some(pending) => {
                let owner: usize = pending.0;
                let worker_to_place: i8 = pending.1;
                if action >= PLACEMENT_ACTIONS {
                    return Err(MoveError::PlacementOutOfRange);
                }
                if owner != player {
                    return Err(MoveError::WrongPlayer);
                }
                if self.workers[action] != 0 {
                    return Err(MoveError::Occupied);
                }
                self.workers[action] = worker_to_place;
                self.bump_round();
                assert(self@.workers =~= old(self)@.placed(
                    action as int,
                    worker_to_place as int,
                ).workers);
                assert(self@ == old(self)@.placed(action as int, worker_to_place as int));
                let next: usize = match self.next_placement() {
                    Some(following) => following.0,
                    None => 1 - owner,
                };
                Ok(next)
            },
            None => {
                if action >= ACTION_SIZE {
                    return Err(MoveError::ActionOutOfRange);
                }
                let parts: (usize, usize, usize) = decode_action(action);
                let worker: usize = parts.0;
                let move_direction: usize = parts.1;
                let build_direction: usize = parts.2;
                let id: i8 = if player == 0 {
                    worker as i8 + 1
                } else {
                    -(worker as i8 + 1)
                };
                let old_pos: (usize, usize) = match self.find_worker(id) {
                    Some(at) => at,
                    None => {
                        return Err(MoveError::MissingWorker);
                    },
                };
                let target: (usize, usize) = match apply_direction(old_pos, move_direction) {
                    Some(t) => t,
                    None => {
                        return Err(MoveError::OffBoard);
                    },
                };
                let from: usize = idx(old_pos.0, old_pos.1);
                let to: usize = idx(target.0, target.1);
                self.workers[from] = 0;
                self.workers[to] = id;
                if build_direction != STAY {
                    match apply_direction(target, build_direction) {
                        Some(site) => {
                            let index: usize = idx(site.0, site.1);
                            let level: i8 = self.levels[index];
                            self.levels[index] = if level >= 4 {
                                4
                            } else {
                                level + 1
                            };
                        },
                        None => {},
                    }
                }
                self.bump_round();
                let ghost expected: Position = old(self)@.moved(
                    id as int,
                    from as int,
                    move_direction as int,
                    build_direction as int,
                );
                assert(self@.workers =~= expected.workers);
                assert(self@.levels =~= expected.levels);
                assert(self@ == expected);
                Ok(1 - player)
            },
        }
    }

    /// Whether a worker of `player` stands on a cell of level 3.
    pub fn stands_on_three(&self, player: usize) -> (found: bool)
        ensures
            found == self@.stands_on_three(player as int),
    {
        let mut cell: usize = 0;
        while cell < 25
            invariant
                cell <= 25,
                forall|c: int|
                    0 <= c < cell && #[trigger] self@.owned(c, player as int) ==> self@.levels[c]
                        != 3,
            decreases 25 - cell,
        {
            let value: i8 = self.workers[cell];
            let owned: bool = if player == 0 {
                value > 0
            } else {
                value < 0
            };
            if owned && self.levels[cell] == 3 {
                assert(self@.owned(cell as int, player as int) && self@.levels[cell as int] == 3);
                return true;
            }
            cell = cell + 1;
        }
        false
    }

    /// The value of the game if it is over with `next_player` to act: `1`
    /// where player 0 has won, `-1` where player 1 has; `None` while the
    /// game goes on.
    pub fn result_value(&self, next_player: usize) -> (value: Option<i8>)
        ensures
            match value {
                Some(v) => self@.result(next_player as int) == Some(v as int),
                None => self@.result(next_player as int) is None,
            },
    {
        if self.next_placement().is_some() {
            return None;
        }
        if self.stands_on_three(0) {
            return Some(1);
        }
        if self.stands_on_three(1) {
            return Some(-1);
        }
        if !self.has_any_valid_move(next_player) {
            return Some(
                if next_player == 0 {
                    -1
                } else {
                    1
                },
            );
        }
        None
    }

    /// The highest level under a worker of `player`; 0 where the player has
    /// no worker on a higher level.
    pub fn score_for(&self, player: usize) -> (highest: i8)
        ensures
            self@.is_score(player as int, highest as int),
    {
        let mut highest: i8 = 0;
        let mut cell: usize = 0;
        while cell < 25
            invariant
                cell <= 25,
                0 <= highest,
                forall|c: int|
                    0 <= c < cell && #[trigger] self@.owned(c, player as int) ==> self@.levels[c]
                        <= highest,
                highest == 0 || exists|c: int|
                    0 <= c < 25 && #[trigger] self@.owned(c, player as int) && self@.levels[c]
                        == highest,
            decreases 25 - cell,
        {
            let value: i8 = self.workers[cell];
            let owned: bool = if player == 0 {
                value > 0
            } else {
                value < 0
            };
            if owned && self.levels[cell] > highest {
                highest = self.levels[cell];
                assert(self@.owned(cell as int, player as int) && self@.levels[cell as int]
                    == highest);
            }
            cell = cell + 1;
        }
        highest
    }
}

impl Default for BoardState {
    fn default() -> (board: BoardState)
        ensures
            board@ == BoardState::new_view(),
    {
        let board = BoardState::new();
        assert(board@.workers =~= BoardState::new_view().workers);
        assert(board@.levels =~= BoardState::new_view().levels);
        board
    }
}

/// Reading a board back from its own token gives the same board: the same
/// workers, the same levels and the same round.
pub proof fn token_round_trip(position: Position)
    requires
        position.shaped(),
        position.round <= 127,
    ensures
        Position::decode(position.encode()) == position,
{
    let back = Position::decode(position.encode());
    assert(back.workers =~= position.workers);
    assert(back.levels =~= position.levels);
}

/// A token of 75 bytes whose round byte is not negative and whose spare
/// bytes are zero is the token of the board that it decodes to.
pub proof fn board_round_trip(bytes: Seq<i8>)
    requires
        bytes.len() == 75,
        bytes[2] >= 0,
        forall|c: int| 1 <= c < 25 ==> #[trigger] bytes[3 * c + 2] == 0,
    ensures
        Position::decode(bytes).encode() == bytes,
{
    let again = Position::decode(bytes).encode();
    assert forall|k: int| 0 <= k < 75 implies again[k] == bytes[k] by {
        let c: int = k / 3;
        if k % 3 == 2 && k != 2 {
            assert(bytes[3 * c + 2] == 0);
        }
    }
    assert(again =~= bytes);
}

/// Seen by player 0 a board is itself, and flipping twice gives the board
/// back.
pub proof fn canonical_is_involution(position: Position, player: int)
    requires
        position.flippable(),
    ensures
        position.canonical(0) == position,
        position.canonical(player).canonical(player) == position,
        position.canonical(player).flippable(),
        position.canonical(1).canonical(1) == position,
{
    assert(position.canonical(player).canonical(player).workers =~= position.workers);
    assert(position.canonical(1).canonical(1).workers =~= position.workers);
}

} // verus!
