//! What holds of the rules on every board. Each statement is over
//! [`Position`], the model that the contracts of
//! [`BoardState`](crate::board::BoardState) speak of.

use vstd::prelude::*;
use crate::action::{
    action_build, action_index, action_move, action_worker, step, step_on_board,
};
use crate::board::{cell_of_holds_worker, next_round, raised, worker_id, Position};

verus! {

/// Every action that the legality mask offers to the player whose turn it
/// is can be applied. (While workers are being placed the mask is the same
/// for both players; only the owner of the pending worker may act on it.)
pub proof fn legal_action_applies(position: Position, player: int, action: int)
    requires
        0 <= player <= 1,
        position.legal(player, action),
        position.pending() matches Some(p) ==> p.0 == player,
    ensures
        position.apply(action, player) is Ok,
{
}

/// While workers are being placed, the actions that can be applied by the
/// owner of the pending worker are exactly those of the mask.
pub proof fn placement_applies_iff_legal(position: Position, player: int, action: int)
    requires
        0 <= action,
        position.pending() matches Some(p) && p.0 == player,
    ensures
        position.apply(action, player) is Ok <==> position.legal(player, action),
{
}

/// Applying a legal action to a well-formed board gives a well-formed
/// board, and names player 0 or player 1 as the next to act.
pub proof fn legal_action_keeps_board_well_formed(position: Position, player: int, action: int)
    requires
        position.well_formed(),
        0 <= player <= 1,
        position.legal(player, action),
        position.pending() matches Some(p) ==> p.0 == player,
    ensures
        position.apply(action, player) matches Ok(next) && next.0.well_formed() && 0 <= next.1
            <= 1,
{
    match position.pending() {
        Some((owner, id)) => {
            let after: Position = position.placed(action, id);
            assert(!position.has_worker(id));
            assert forall|c: int, d: int|
                0 <= c < d < 25 && #[trigger] after.workers[c] != 0 implies after.workers[c]
                != #[trigger] after.workers[d] by {
                if c == action {
                    assert(position.workers[d] != id);
                } else if d == action {
                    assert(position.workers[c] != id);
                }
            }
            assert(after.well_formed());
        },
        None => {
            let id: int = worker_id(player, action_worker(action));
            let from: int = position.cell_of(id);
            let m: int = action_move(action);
            let b: int = action_build(action);
            let to: int = step(from, m);
            let after: Position = position.moved(id, from, m, b);
            cell_of_holds_worker(position, id);
            assert(-2 <= id <= 2 && id != 0);
            assert(from != to);
            assert forall|c: int, d: int|
                0 <= c < d < 25 && #[trigger] after.workers[c] != 0 implies after.workers[c]
                != #[trigger] after.workers[d] by {
                if c == to {
                    if d != from {
                        if from < d {
                            assert(position.workers[from] != position.workers[d]);
                        } else {
                            assert(position.workers[d] != position.workers[from]);
                        }
                    }
                } else if d == to {
                    if c < from {
                        assert(position.workers[c] != position.workers[from]);
                    } else if from < c {
                        assert(position.workers[from] != position.workers[c]);
                    }
                }
            }
            assert forall|c: int| 0 <= c < 25 implies 0 <= #[trigger] after.levels[c] <= 4 by {
                assert(0 <= position.levels[c] <= 4);
            }
            assert forall|c: int| 0 <= c < 25 implies -2 <= #[trigger] after.workers[c] <= 2 by {
                assert(-2 <= position.workers[c] <= 2);
            }
            assert(after.well_formed());
        },
    }
}

/// Applying an action to a board whose worker values can all be negated
/// gives such a board again.
pub proof fn apply_keeps_flippable(position: Position, player: int, action: int)
    requires
        position.shaped(),
        position.flippable(),
        0 <= player <= 1,
        0 <= action,
        position.apply(action, player) is Ok,
    ensures
        position.apply(action, player) matches Ok(next) && next.0.flippable() && next.0.shaped(),
{
    match position.pending() {
        Some((owner, id)) => {
            let after: Position = position.placed(action, id);
            assert forall|c: int| 0 <= c < after.workers.len() implies #[trigger] after.workers[c]
                != i8::MIN by {
                if c != action {
                    assert(position.workers[c] != i8::MIN);
                }
            }
        },
        None => {
            let id: int = worker_id(player, action_worker(action));
            let from: int = position.cell_of(id);
            let after: Position = position.moved(
                id,
                from,
                action_move(action),
                action_build(action),
            );
            cell_of_holds_worker(position, id);
            assert forall|c: int| 0 <= c < after.workers.len() implies #[trigger] after.workers[c]
                != i8::MIN by {
                assert(position.workers[c] != i8::MIN);
            }
        },
    }
}

/// While a worker is still to be placed, only cell indices can be legal.
pub proof fn placement_mask_is_within_cells(position: Position, player: int, action: int)
    requires
        position.pending() is Some,
        position.legal(player, action),
    ensures
        0 <= action < 25,
        position.workers[action] == 0,
{
}

/// Once all workers are placed, a legal action names a real move and a real
/// build: neither direction is the one that stays in place.
pub proof fn movement_mask_names_real_steps(position: Position, player: int, action: int)
    requires
        position.pending() is None,
        position.legal(player, action),
    ensures
        0 <= action < 162,
        action_move(action) != 4,
        action_build(action) != 4,
        position.has_worker(worker_id(player, action_worker(action))),
{
}

/// A placement on a cell that holds a worker is refused.
pub proof fn occupied_cell_refuses_placement(position: Position, player: int, action: int)
    requires
        position.pending() is Some,
        0 <= action < 25,
        position.workers[action] != 0,
    ensures
        position.apply(action, player) is Err,
{
}

/// After a placement, the same placement is refused for as long as a
/// worker is still to be placed.
pub proof fn repeated_placement_is_refused(
    position: Position,
    player: int,
    action: int,
    again: int,
)
    requires
        position.shaped(),
        0 <= action,
        position.pending() is Some,
        position.apply(action, player) matches Ok(next) && next.0.pending() is Some,
    ensures
        position.apply(action, player) matches Ok(next) && next.0.apply(action, again) is Err,
{
    match position.pending() {
        Some((_, id)) => {
            let after: Position = position.placed(action, id);
            assert(after.workers[action] == id);
        },
        None => {},
    }
}

/// Applying an action counts one round, and the counter stops at 127: it
/// never decreases and never passes 127.
pub proof fn round_counter_saturates(position: Position, player: int, action: int)
    requires
        position.apply(action, player) is Ok,
    ensures
        position.apply(action, player) matches Ok(next) && next.0.round == next_round(
            position.round,
        ),
        position.round <= next_round(position.round),
        position.round < 127 ==> next_round(position.round) == position.round + 1,
        position.round <= 127 ==> next_round(position.round) <= 127,
        position.round == 127 ==> next_round(position.round) == 127,
{
}

/// One more storey on level 3 makes a dome, and a dome stays as it is.
pub proof fn building_is_capped(level: i8)
    ensures
        raised(3) == 4,
        raised(4) == 4,
        level <= 4 ==> level <= raised(level) <= 4,
        level < 4 ==> raised(level) == level + 1,
{
}

/// No legal action enters a dome or builds on one.
pub proof fn dome_is_closed(position: Position, player: int, action: int)
    requires
        position.pending() is None,
        position.legal(player, action),
    ensures
        ({
            let from: int = position.cell_of(worker_id(player, action_worker(action)));
            let to: int = step(from, action_move(action));
            let site: int = step(to, action_build(action));
            position.levels[to] < 4 && position.levels[site] < 4
        }),
{
}

/// Applying an action lowers no level of a board whose levels are at most
/// 4, so that a dome stays a dome.
pub proof fn levels_never_fall(position: Position, player: int, action: int, cell: int)
    requires
        position.shaped(),
        0 <= cell < 25,
        position.levels[cell] <= 4,
        position.apply(action, player) is Ok,
    ensures
        position.apply(action, player) matches Ok(next) && position.levels[cell]
            <= next.0.levels[cell] <= 4,
{
}

/// A worker may build on the cell that it has just left: where the worker
/// can step in a direction and the cell it leaves is no dome, moving there
/// and building in the opposite direction is legal.
pub proof fn may_build_on_vacated_cell(
    position: Position,
    player: int,
    worker: int,
    move_direction: int,
)
    requires
        position.pending() is None,
        0 <= worker < 2,
        0 <= move_direction < 9,
        move_direction != 4,
        position.has_worker(worker_id(player, worker)),
        ({
            let from: int = position.cell_of(worker_id(player, worker));
            &&& step_on_board(from, move_direction)
            &&& position.can_step(from, step(from, move_direction))
            &&& position.levels[from] < 4
        }),
    ensures
        position.legal(player, action_index(worker, move_direction, 8 - move_direction)),
        ({
            let from: int = position.cell_of(worker_id(player, worker));
            step(step(from, move_direction), 8 - move_direction) == from
        }),
{
    let id: int = worker_id(player, worker);
    let from: int = position.cell_of(id);
    cell_of_holds_worker(position, id);
    let to: int = step(from, move_direction);
    let back: int = 8 - move_direction;
    assert(step_on_board(to, back));
    assert(step(to, back) == from);
    let action: int = action_index(worker, move_direction, back);
    assert(action_worker(action) == worker);
    assert(action_move(action) == move_direction);
    assert(action_build(action) == back);
}

/// A player who must act and has no legal action has lost, unless a
/// worker already stands on level 3.
pub proof fn stalemate_is_loss(position: Position, next_player: int)
    requires
        position.pending() is None,
        !position.stands_on_three(0),
        !position.stands_on_three(1),
        !position.has_legal(next_player),
    ensures
        position.result(next_player) == Some(
            if next_player == 0 {
                -1int
            } else {
                1int
            },
        ),
{
}

/// The game is never over while a worker is still to be placed, and
/// otherwise it is over exactly where a worker stands on level 3 or the
/// player to act has no legal action.
pub proof fn game_over_iff(position: Position, next_player: int)
    ensures
        position.result(next_player) is Some <==> position.pending() is None && (
        position.stands_on_three(0) || position.stands_on_three(1) || !position.has_legal(
            next_player,
        )),
        position.result(next_player) matches Some(v) ==> v == 1 || v == -1,
{
}

} // verus!
