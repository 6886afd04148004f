use santorini_mcts::action::{apply_direction, decode_action, encode_action, idx};
use santorini_mcts::board::{BoardState, MoveError};
use santorini_mcts::host::SantoriniBoard;
use santorini_mcts::{action_size, state_size};

fn placed_board() -> BoardState {
    let mut board = BoardState::new();
    board.workers[idx(2, 2)] = 1;
    board.workers[idx(0, 0)] = 2;
    board.workers[idx(4, 4)] = -1;
    board.workers[idx(3, 3)] = -2;
    board
}

fn mask_of(board: &BoardState, player: usize) -> [bool; 162] {
    let mut mask = [false; 162];
    board.valid_moves(player, &mut mask);
    mask
}

#[test]
fn sizes_are_fixed() {
    assert_eq!(state_size(), 75);
    assert_eq!(action_size(), 162);
}

#[test]
fn action_codec_round_trips() {
    assert_eq!(encode_action(0, 0, 0), 0);
    assert_eq!(encode_action(1, 5, 3), 81 + 45 + 3);
    assert_eq!(encode_action(1, 8, 8), 161);
    assert_eq!(decode_action(129), (1, 5, 3));
    for action in 0..162 {
        let (worker, move_direction, build_direction) = decode_action(action);
        assert_eq!(encode_action(worker, move_direction, build_direction), action);
    }
}

#[test]
fn directions_are_the_moore_neighbourhood() {
    let expected: [(i32, i32); 9] =
        [(-1, -1), (-1, 0), (-1, 1), (0, -1), (0, 0), (0, 1), (1, -1), (1, 0), (1, 1)];
    for direction in 0..9 {
        let target = apply_direction((2, 2), direction);
        let (dy, dx) = expected[direction];
        assert_eq!(target, Some(((2 + dy) as usize, (2 + dx) as usize)));
    }
    assert_eq!(apply_direction((0, 0), 0), None);
    assert_eq!(apply_direction((0, 3), 1), None);
    assert_eq!(apply_direction((4, 4), 8), None);
    assert_eq!(apply_direction((4, 4), 5), None);
    assert_eq!(apply_direction((4, 4), 3), Some((4, 3)));
}

#[test]
fn token_layout_is_cell_major() {
    let mut board = BoardState::new();
    board.workers[7] = -2;
    board.levels[7] = 3;
    board.round = 9;
    let bytes = board.as_bytes();
    assert_eq!(bytes[21], -2);
    assert_eq!(bytes[22], 3);
    assert_eq!(bytes[23], 0);
    assert_eq!(bytes[2], 9);
    assert_eq!(board.to_vec(), bytes.to_vec());
    assert_eq!(board.key(), bytes);
}

#[test]
fn negative_round_byte_reads_as_zero() {
    let mut bytes = vec![0i8; 75];
    bytes[2] = -5;
    assert_eq!(BoardState::from_vec(&bytes).round(), 0);
    bytes[2] = 127;
    assert_eq!(BoardState::from_vec(&bytes).round(), 127);
}

#[test]
fn canonicalisation_is_an_involution() {
    let mut board = placed_board();
    board.levels[idx(1, 2)] = 2;
    board.round = 17;
    let same = board.canonicalised(0);
    assert_eq!(same.workers, board.workers);
    let twice = board.canonicalised(1).canonicalised(1);
    assert_eq!(twice.workers, board.workers);
    assert_eq!(twice.levels, board.levels);
    assert_eq!(twice.round, board.round);
    let once = board.canonicalised(1);
    assert_eq!(once.levels, board.levels);
    assert_eq!(once.workers[idx(2, 2)], -1);
    assert_eq!(once.workers[idx(3, 3)], 2);
}

#[test]
fn flippable_rejects_the_minimum() {
    let mut board = BoardState::new();
    assert!(board.is_flippable());
    board.workers[3] = i8::MIN;
    assert!(!board.is_flippable());
}

#[test]
fn placement_mask_is_the_empty_cells() {
    let mut board = BoardState::new();
    board.workers[3] = 1;
    let mask = mask_of(&board, 0);
    for action in 0..162 {
        assert_eq!(mask[action], action < 25 && action != 3);
    }
    assert_eq!(mask_of(&board, 1), mask);
}

#[test]
fn placements_follow_the_fixed_order() {
    let mut board = BoardState::new();
    assert_eq!(board.next_placement(), Some((0, 1)));
    assert_eq!(board.make_move(0, 0), Ok(0));
    assert_eq!(board.make_move(1, 0), Ok(1));
    assert_eq!(board.make_move(2, 1), Ok(1));
    assert_eq!(board.make_move(3, 1), Ok(0));
    assert_eq!(board.workers[0], 1);
    assert_eq!(board.workers[1], 2);
    assert_eq!(board.workers[2], -1);
    assert_eq!(board.workers[3], -2);
    assert_eq!(board.round(), 4);
    assert_eq!(board.next_placement(), None);
}

#[test]
fn placement_errors() {
    let mut board = BoardState::new();
    assert_eq!(board.make_move(25, 0), Err(MoveError::PlacementOutOfRange));
    assert_eq!(board.make_move(4, 1), Err(MoveError::WrongPlayer));
    assert_eq!(board.make_move(4, 0), Ok(0));
    assert_eq!(board.make_move(4, 0), Err(MoveError::Occupied));
    assert_eq!(board.round(), 1);
    assert_eq!(board.workers[4], 1);
}

#[test]
fn movement_errors() {
    let mut board = placed_board();
    assert_eq!(board.make_move(162, 0), Err(MoveError::ActionOutOfRange));
    // Worker 2 of player 0 stands in the corner (0, 0): direction 0 leaves the board.
    assert_eq!(board.make_move(encode_action(1, 0, 1), 0), Err(MoveError::OffBoard));
    assert_eq!(board.workers, placed_board().workers);
    let mut lonely = placed_board();
    lonely.workers[idx(2, 2)] = 0;
    // Worker 1 is gone: the board is back in the placement phase.
    assert_eq!(lonely.make_move(30, 0), Err(MoveError::PlacementOutOfRange));
}

#[test]
fn move_and_build() {
    let mut board = placed_board();
    let action = encode_action(0, 5, 5);
    assert!(mask_of(&board, 0)[action]);
    assert_eq!(board.make_move(action, 0), Ok(1));
    assert_eq!(board.workers[idx(2, 2)], 0);
    assert_eq!(board.workers[idx(2, 3)], 1);
    assert_eq!(board.levels[idx(2, 4)], 1);
    assert_eq!(board.round(), 1);
}

#[test]
fn a_worker_may_build_on_the_cell_it_left() {
    let mut board = placed_board();
    let action = encode_action(0, 5, 3);
    assert!(mask_of(&board, 0)[action]);
    assert_eq!(board.make_move(action, 0), Ok(1));
    assert_eq!(board.workers[idx(2, 3)], 1);
    assert_eq!(board.levels[idx(2, 2)], 1);
}

#[test]
fn level_three_becomes_a_dome_and_is_closed() {
    let mut board = placed_board();
    board.levels[idx(2, 4)] = 3;
    assert_eq!(board.make_move(encode_action(0, 5, 5), 0), Ok(1));
    assert_eq!(board.levels[idx(2, 4)], 4);
    // The worker on (2, 3) can neither enter the dome nor build on it again.
    let mask = mask_of(&board, 0);
    for build in 0..9 {
        assert!(!mask[encode_action(0, 5, build)]);
    }
    // Nor can it step up to (1, 3) and build on the dome from there.
    assert!(!mask[encode_action(0, 1, 8)]);
    assert!(mask[encode_action(0, 1, 1)]);
    // Building on a dome leaves it a dome.
    let mut again = board;
    again.workers[idx(2, 3)] = 0;
    again.workers[idx(1, 3)] = 1;
    assert_eq!(again.make_move(encode_action(0, 7, 5), 0), Ok(1));
    assert_eq!(again.levels[idx(2, 4)], 4);
}

#[test]
fn climbing_is_limited_to_one_level() {
    let mut board = placed_board();
    board.levels[idx(2, 3)] = 2;
    let mask = mask_of(&board, 0);
    for build in 0..9 {
        assert!(!mask[encode_action(0, 5, build)]);
    }
    board.levels[idx(2, 2)] = 1;
    let mask = mask_of(&board, 0);
    assert!(mask[encode_action(0, 5, 5)]);
}

#[test]
fn movement_mask_skips_the_centre_direction() {
    let board = placed_board();
    for player in 0..2 {
        let mask = mask_of(&board, player);
        for action in 0..162 {
            let (_, move_direction, build_direction) = decode_action(action);
            if move_direction == 4 || build_direction == 4 {
                assert!(!mask[action]);
            }
        }
        assert!(mask.iter().any(|flag| *flag));
    }
}

#[test]
fn every_masked_action_applies() {
    let board = placed_board();
    for player in 0..2 {
        let mask = mask_of(&board, player);
        for action in 0..162 {
            if mask[action] {
                let mut copy = board;
                assert_eq!(copy.make_move(action, player), Ok(1 - player));
            }
        }
    }
}

#[test]
fn round_counter_saturates() {
    let mut board = placed_board();
    board.round = 126;
    assert_eq!(board.make_move(encode_action(0, 5, 5), 0), Ok(1));
    assert_eq!(board.round(), 127);
    assert_eq!(board.make_move(encode_action(0, 3, 3), 1), Ok(0));
    assert_eq!(board.round(), 127);
    assert_eq!(board.as_bytes()[2], 127);
}

#[test]
fn level_three_wins() {
    let mut board = placed_board();
    board.levels[idx(2, 2)] = 2;
    board.levels[idx(2, 3)] = 3;
    assert_eq!(board.result_value(0), None);
    assert_eq!(board.score_for(0), 2);
    let mut handle = SantoriniBoard::new();
    handle.set_state(board.to_vec());
    assert_eq!(handle.maybe_terminal_score(0), None);
    // Worker 1 of player 0 steps right, from level 2 onto level 3.
    assert_eq!(handle.apply_move(encode_action(0, 5, 5) as u16, 0), Ok(1));
    assert_eq!(handle.maybe_terminal_score(1), Some(1));
    assert_eq!(handle.maybe_terminal_score(0), Some(1));
    assert_eq!(handle.score_for(0), 3);
    assert_eq!(handle.score_for(1), 0);
    assert_eq!(handle.round(), 1);
    let after = handle.clone_internal();
    assert_eq!(after.workers[idx(2, 3)], 1);
    assert_eq!(after.levels[idx(2, 4)], 1);
    // Seen by the opponent, the same board is lost.
    assert_eq!(after.canonicalised(1).result_value(0), Some(-1));
}

#[test]
fn a_worker_on_level_two_has_not_won() {
    let mut board = placed_board();
    board.levels[idx(2, 2)] = 2;
    board.levels[idx(2, 3)] = 2;
    assert_eq!(board.make_move(encode_action(0, 5, 5), 0), Ok(1));
    assert_eq!(board.result_value(1), None);
    assert_eq!(board.score_for(0), 2);
}

#[test]
fn stalemate_is_a_loss_for_the_side_to_move() {
    let mut board = BoardState::new();
    board.workers[idx(0, 0)] = 1;
    board.workers[idx(0, 4)] = 2;
    board.workers[idx(4, 4)] = -1;
    board.workers[idx(4, 0)] = -2;
    for cell in [idx(0, 1), idx(1, 0), idx(1, 1), idx(0, 3), idx(1, 3), idx(1, 4)] {
        board.levels[cell] = 4;
    }
    assert!(!board.has_any_valid_move(0));
    assert!(board.has_any_valid_move(1));
    assert_eq!(board.result_value(0), Some(-1));
    assert_eq!(board.result_value(1), None);
    assert_eq!(board.canonicalised(1).result_value(1), Some(1));
}

#[test]
fn no_result_during_placement() {
    let mut board = BoardState::new();
    assert_eq!(board.result_value(0), None);
    board.workers[0] = 1;
    board.levels[0] = 3;
    assert_eq!(board.result_value(0), None);
}

#[test]
fn host_board_round_trips_tokens() {
    let mut handle = SantoriniBoard::new();
    assert_eq!(handle.get_state(), vec![0i8; 75]);
    let board = placed_board();
    handle.set_state(board.to_vec());
    assert_eq!(handle.get_state(), board.to_vec());
    assert_eq!(handle.canonical_state(1), board.canonicalised(1).to_vec());
    let mask = handle.valid_moves(0);
    let flags = mask_of(&board, 0);
    assert_eq!(mask.len(), 162);
    for action in 0..162 {
        assert_eq!(mask[action], u8::from(flags[action]));
    }
    handle.reset();
    assert_eq!(handle.get_state(), vec![0i8; 75]);
    assert_eq!(handle.round(), 0);
}
