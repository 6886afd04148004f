//! The action space.
//!
//! A movement action names a worker (0 or 1), a direction to move in and a
//! direction to build in. The nine directions are the Moore neighbourhood in
//! row-major order, `(dy, dx)`:
//!
//! ```text
//! 0: (-1,-1)   1: (-1, 0)   2: (-1, 1)
//! 3: ( 0,-1)   4: ( 0, 0)   5: ( 0, 1)
//! 6: ( 1,-1)   7: ( 1, 0)   8: ( 1, 1)
//! ```
//!
//! Direction 4 stands for "no move" / "no build". During the placement phase
//! an action is the index `5 * y + x` of the target cell instead.

use vstd::prelude::*;

verus! {

/// Side length of the board.
pub const BOARD_SIZE: usize = 5;

/// Number of cells on the board.
pub const CELL_COUNT: usize = 25;

/// Number of directions, the centre included.
pub const DIRECTION_COUNT: usize = 9;

/// The direction that leaves a position where it is.
pub const STAY: usize = 4;

/// Width of the action space.
pub const ACTION_SIZE: usize = 162;

/// The first indices of the action space double as placement targets.
pub const PLACEMENT_ACTIONS: usize = 25;

/// The index of the action `(worker, move_direction, build_direction)`.
pub open spec fn action_index(worker: int, move_direction: int, build_direction: int) -> int {
    81 * worker + 9 * move_direction + build_direction
}

/// The worker that an action index names.
pub open spec fn action_worker(action: int) -> int {
    action / 81
}

/// The move direction that an action index names.
pub open spec fn action_move(action: int) -> int {
    (action % 81) / 9
}

/// The build direction that an action index names.
pub open spec fn action_build(action: int) -> int {
    action % 9
}

/// Row offset of a direction.
pub open spec fn direction_dy(direction: int) -> int {
    direction / 3 - 1
}

/// Column offset of a direction.
pub open spec fn direction_dx(direction: int) -> int {
    direction % 3 - 1
}

/// Whether `(y, x)` names a cell of the board.
pub open spec fn on_board(y: int, x: int) -> bool {
    0 <= y < 5 && 0 <= x < 5
}

/// Row-major index of the cell `(y, x)`.
pub open spec fn cell_index(y: int, x: int) -> int {
    5 * y + x
}

/// Whether one step from `cell` in `direction` stays on the board.
pub open spec fn step_on_board(cell: int, direction: int) -> bool {
    on_board(cell / 5 + direction_dy(direction), cell % 5 + direction_dx(direction))
}

/// The cell one step from `cell` in `direction`.
pub open spec fn step(cell: int, direction: int) -> int {
    cell_index(cell / 5 + direction_dy(direction), cell % 5 + direction_dx(direction))
}

/// Row-major index of a cell.
pub fn idx(y: usize, x: usize) -> (cell: usize)
    requires
        5 * y + x <= usize::MAX,
    ensures
        cell == cell_index(y as int, x as int),
{
    y * BOARD_SIZE + x
}

/// Packs a movement action into its index.
pub fn encode_action(worker: usize, move_direction: usize, build_direction: usize) -> (action:
    usize)
    requires
        action_index(worker as int, move_direction as int, build_direction as int) <= usize::MAX,
    ensures
        action == action_index(worker as int, move_direction as int, build_direction as int),
{
    81 * worker + 9 * move_direction + build_direction
}

/// Splits an action index into worker, move direction and build direction.
pub fn decode_action(action: usize) -> (parts: (usize, usize, usize))
    ensures
        parts.0 == action_worker(action as int),
        parts.1 == action_move(action as int),
        parts.2 == action_build(action as int),
{
    let worker: usize = action / 81;
    let remainder: usize = action % 81;
    let move_direction: usize = remainder / 9;
    let build_direction: usize = remainder % 9;
    assert((action % 81) % 9 == action % 9) by (nonlinear_arith);
    (worker, move_direction, build_direction)
}

/// Takes one step from `position` in `direction`; `None` when the step
/// leaves the board.
pub fn apply_direction(position: (usize, usize), direction: usize) -> (target: Option<
    (usize, usize),
>)
    requires
        on_board(position.0 as int, position.1 as int),
        direction < 9,
    ensures
        match target {
            Some(t) => {
                &&& step_on_board(cell_index(position.0 as int, position.1 as int), direction as int)
                &&& t.0 == position.0 + direction_dy(direction as int)
                &&& t.1 == position.1 + direction_dx(direction as int)
            },
            None => !step_on_board(
                cell_index(position.0 as int, position.1 as int),
                direction as int,
            ),
        },
{
    let row_step: usize = direction / 3;
    let column_step: usize = direction % 3;
    // The offsets are `row_step - 1` and `column_step - 1`; the sums below
    // are shifted by one to stay within the unsigned range.
    let shifted_row: usize = position.0 + row_step;
    let shifted_column: usize = position.1 + column_step;
    if 1 <= shifted_row && shifted_row <= BOARD_SIZE && 1 <= shifted_column && shifted_column
        <= BOARD_SIZE {
        Some((shifted_row - 1, shifted_column - 1))
    } else {
        None
    }
}

/// Decoding undoes encoding.
pub proof fn decode_inverts_encode(worker: int, move_direction: int, build_direction: int)
    requires
        0 <= worker,
        0 <= move_direction < 9,
        0 <= build_direction < 9,
    ensures
        action_worker(action_index(worker, move_direction, build_direction)) == worker,
        action_move(action_index(worker, move_direction, build_direction)) == move_direction,
        action_build(action_index(worker, move_direction, build_direction)) == build_direction,
{
}

/// Encoding undoes decoding, and every index below 162 names one of the two
/// workers and two directions.
pub proof fn encode_inverts_decode(action: int)
    requires
        0 <= action,
    ensures
        action_index(action_worker(action), action_move(action), action_build(action)) == action,
        0 <= action_move(action) < 9,
        0 <= action_build(action) < 9,
        action < 162 <==> action_worker(action) < 2,
{
}

} // verus!
