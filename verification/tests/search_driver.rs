use rand::rngs::SmallRng;
use rand::SeedableRng;
use santorini_mcts::action::{encode_action, idx};
use santorini_mcts::board::{BoardState, MoveError};
use santorini_mcts::mcts::{
    begin_search, Backup, Crumb, MctsConfig, RootSummary, SantoriniMcts, SearchError, Simulation,
    Step,
};

/// What the host of these tests keeps per node.
#[derive(Clone, Debug, PartialEq)]
struct Estimates {
    prior: Vec<f32>,
    q: Vec<f32>,
    mean: f32,
}

struct Host {
    engine: SantoriniMcts<Estimates>,
    evaluations: usize,
    short_policy: bool,
}

fn rank(score: f32) -> i32 {
    if score.is_nan() {
        return i32::MIN;
    }
    let bits = (score + 0.0).to_bits() as i32;
    if bits < 0 {
        bits ^ 0x7fff_ffff
    } else {
        bits
    }
}

impl Host {
    fn new(config: MctsConfig, seed: u64) -> Host {
        Host {
            engine: SantoriniMcts::new(config, SmallRng::seed_from_u64(seed)),
            evaluations: 0,
            short_policy: false,
        }
    }

    fn credit(&mut self, backups: &[Backup], leaf: f32) {
        for backup in backups {
            if !backup.found {
                continue;
            }
            let value = if backup.negated { -leaf } else { leaf };
            let mut estimates = self.engine.node(&backup.key).unwrap().values.clone().unwrap();
            estimates.q[backup.action] +=
                (value - estimates.q[backup.action]) / backup.edge_visits as f32;
            estimates.mean += (value - estimates.mean) / backup.total_visits as f32;
            assert!(self.engine.set_values(&backup.key, estimates));
        }
    }

    fn simulate(
        &mut self,
        plan: &santorini_mcts::mcts::SearchPlan,
        iteration: u32,
    ) -> Result<(), SearchError> {
        let mut sim = Simulation::start(plan, iteration);
        loop {
            match self.engine.advance(&sim) {
                Step::Finished { value, backups } => {
                    self.credit(&backups, value as f32);
                    return Ok(());
                }
                Step::Evaluate { state, mask } => {
                    assert_eq!(state, sim.board.to_vec());
                    self.evaluations += 1;
                    let legal = mask.iter().filter(|flag| **flag == 1).count();
                    let prior: Vec<f32> = mask
                        .iter()
                        .map(|flag| if *flag == 1 { 1.0 / legal as f32 } else { 0.0 })
                        .collect();
                    let estimates = Estimates { prior, q: vec![0.0; 162], mean: 0.0 };
                    let policy_len = if self.short_policy { 161 } else { 162 };
                    let (terminal, backups) = self.engine.expand(&sim, policy_len, estimates)?;
                    assert_eq!(terminal, None);
                    self.credit(&backups, 0.0);
                    return Ok(());
                }
                Step::Select { .. } => {
                    let node = self.engine.node(&sim.board.key()).unwrap();
                    let estimates = node.values.as_ref().unwrap();
                    let root = (node.total_visits.max(1) as f32).sqrt();
                    let mut scores = [i32::MIN; 162];
                    for action in 0..162 {
                        if !node.valid[action] {
                            continue;
                        }
                        let visits = node.edge_visits[action];
                        let q = if visits > 0 { estimates.q[action] } else { estimates.mean - 0.03 };
                        let u = 2.75 * estimates.prior[action] * root / (1.0 + visits as f32);
                        scores[action] = rank(q + u);
                    }
                    self.engine.descend(&mut sim, &scores, &[0u32; 162])?;
                }
            }
        }
    }

    fn search(
        &mut self,
        state: &[i8],
        player: u8,
        greedy: bool,
        force_full: bool,
    ) -> Result<RootSummary, SearchError> {
        let plan = begin_search(&self.engine.config, state, player, force_full, false)?;
        for iteration in 1..=plan.budget {
            self.simulate(&plan, iteration)?;
        }
        self.engine.maybe_cleanup(plan.root.round());
        self.engine.root_distribution(&plan, &[0u32; 162], greedy)
    }
}

fn placed_board() -> BoardState {
    let mut board = BoardState::new();
    board.workers[idx(2, 2)] = 1;
    board.workers[idx(0, 0)] = 2;
    board.workers[idx(4, 4)] = -1;
    board.workers[idx(3, 3)] = -2;
    board
}

fn small(num_simulations: u32) -> MctsConfig {
    MctsConfig { num_simulations, ..MctsConfig::default() }
}

fn the_one(weights: &[u32]) -> usize {
    assert_eq!(weights.len(), 162);
    assert_eq!(weights.iter().sum::<u32>(), 1);
    weights.iter().position(|weight| *weight == 1).unwrap()
}

#[test]
fn default_config_has_no_dirichlet_noise() {
    let cfg = MctsConfig::default();
    assert_eq!(cfg.dirichlet_noise, false);
}

#[test]
fn default_config_values() {
    let cfg = SantoriniMcts::<Estimates>::default_config();
    assert_eq!(cfg.num_simulations, 128);
    assert_eq!(cfg.partial_divisor, 4);
    assert!(!cfg.forced_playouts);
    assert!(!cfg.no_mem_optim);
    assert_eq!(cfg.cleanup_interval, 20);
    assert_eq!(cfg.retain_rounds, 5);
    assert_eq!(santorini_mcts::SEARCH_RESULT_VERSION, 1);
}

#[test]
fn wrong_length_token_is_refused() {
    let cfg = MctsConfig::default();
    assert_eq!(begin_search(&cfg, &[0i8; 74], 0, true, false).err(), Some(SearchError::StateLength));
    assert_eq!(begin_search(&cfg, &[0i8; 76], 1, true, false).err(), Some(SearchError::StateLength));
    assert!(begin_search(&cfg, &[0i8; 75], 0, true, false).is_ok());
}

#[test]
fn full_and_partial_budgets() {
    let cfg = MctsConfig {
        num_simulations: 64,
        partial_divisor: 4,
        forced_playouts: true,
        dirichlet_noise: true,
        ..MctsConfig::default()
    };
    let state = [0i8; 75];
    let forced = begin_search(&cfg, &state, 0, true, false).unwrap();
    assert!(forced.full_search && forced.budget == 64 && forced.forced_playouts && forced.noise);
    let drawn = begin_search(&cfg, &state, 0, false, true).unwrap();
    assert!(drawn.full_search && drawn.budget == 64);
    let partial = begin_search(&cfg, &state, 0, false, false).unwrap();
    assert!(!partial.full_search && !partial.forced_playouts && !partial.noise);
    assert_eq!(partial.budget, 16);
    let zero = MctsConfig { num_simulations: 3, partial_divisor: 0, ..cfg };
    assert_eq!(begin_search(&zero, &state, 0, false, false).unwrap().budget, 3);
    let tiny = MctsConfig { num_simulations: 3, partial_divisor: 9, ..cfg };
    assert_eq!(begin_search(&tiny, &state, 0, false, false).unwrap().budget, 1);
}

#[test]
fn partial_search_stays_within_its_budget() {
    let cfg = MctsConfig { num_simulations: 64, partial_divisor: 4, ..MctsConfig::default() };
    let mut host = Host::new(cfg, 1);
    let summary = host.search(&placed_board().to_vec(), 0, true, false).unwrap();
    assert!(!summary.full_search);
    assert!(host.evaluations <= 16);
    assert!(host.evaluations >= 1);
    assert_eq!(summary.visits.iter().sum::<u32>(), 15);
}

#[test]
fn the_root_is_seen_by_the_player_to_move() {
    let cfg = MctsConfig::default();
    let board = placed_board();
    let plan = begin_search(&cfg, &board.to_vec(), 1, true, false).unwrap();
    assert_eq!(plan.root.workers, board.canonicalised(1).workers);
    let again = begin_search(&cfg, &board.canonicalised(1).to_vec(), 0, true, false).unwrap();
    assert_eq!(again.root.key(), plan.root.key());
}

#[test]
fn searches_from_either_side_agree() {
    let board = placed_board();
    let mut left = Host::new(small(32), 5);
    let mut right = Host::new(small(32), 5);
    let for_one = left.search(&board.to_vec(), 1, true, true).unwrap();
    let canonical = right.search(&board.canonicalised(1).to_vec(), 0, true, true).unwrap();
    assert_eq!(for_one.weights, canonical.weights);
    assert_eq!(for_one.visits, canonical.visits);
    let action = the_one(&for_one.weights);
    let mut played = board;
    assert_eq!(played.make_move(action, 1), Ok(0));
    let mut mirrored = board.canonicalised(1);
    assert_eq!(mirrored.make_move(action, 0), Ok(1));
    assert_eq!(mirrored.canonicalised(1).workers, played.workers);
    assert_eq!(mirrored.levels, played.levels);
}

#[test]
fn first_four_placements() {
    let mut host = Host::new(small(16), 3);
    let mut board = BoardState::new();
    let players = [0u8, 0, 1, 1];
    let mut cells = Vec::new();
    for player in players {
        let summary = host.search(&board.to_vec(), player, true, true).unwrap();
        assert_eq!(summary.version, 1);
        assert!(summary.full_search);
        let action = the_one(&summary.weights);
        assert!(action < 25);
        assert_eq!(board.workers[action], 0);
        board.make_move(action, player as usize).unwrap();
        cells.push(action);
    }
    let values: Vec<i8> = cells.iter().map(|cell| board.workers[*cell]).collect();
    assert_eq!(values, vec![1, 2, -1, -2]);
    cells.sort();
    cells.dedup();
    assert_eq!(cells.len(), 4);
    assert_eq!(board.next_placement(), None);
}

#[test]
fn greedy_weights_are_one_hot_over_a_legal_action() {
    let mut host = Host::new(small(40), 11);
    let board = placed_board();
    let summary = host.search(&board.to_vec(), 0, true, true).unwrap();
    let action = the_one(&summary.weights);
    let mut mask = [false; 162];
    board.valid_moves(0, &mut mask);
    assert!(mask[action]);
    let most = summary.visits.iter().max().unwrap();
    assert_eq!(summary.visits[action], *most);
    assert_eq!(summary.visits.iter().sum::<u32>(), 39);
}

#[test]
fn plain_weights_are_the_visits() {
    let mut host = Host::new(small(40), 11);
    let summary = host.search(&placed_board().to_vec(), 0, false, true).unwrap();
    assert_eq!(summary.weights, summary.visits);
}

#[test]
fn an_unvisited_root_plays_its_first_legal_action() {
    let mut host = Host::new(small(1), 2);
    let board = placed_board();
    let summary = host.search(&board.to_vec(), 0, true, true).unwrap();
    let mut mask = [false; 162];
    board.valid_moves(0, &mut mask);
    let first = mask.iter().position(|flag| *flag).unwrap();
    assert_eq!(the_one(&summary.weights), first);
    assert_eq!(host.evaluations, 1);
}

#[test]
fn a_stalemated_root_is_lost() {
    let mut board = BoardState::new();
    board.workers[idx(0, 0)] = 1;
    board.workers[idx(0, 4)] = 2;
    board.workers[idx(4, 4)] = -1;
    board.workers[idx(4, 0)] = -2;
    for cell in [idx(0, 1), idx(1, 0), idx(1, 1), idx(0, 3), idx(1, 3), idx(1, 4)] {
        board.levels[cell] = 4;
    }
    let mut host = Host::new(small(8), 4);
    let summary = host.search(&board.to_vec(), 0, true, true).unwrap();
    assert_eq!(host.evaluations, 0);
    let node = host.engine.node(&board.key()).unwrap();
    assert_eq!(node.terminal_value, Some(-1));
    assert!(node.values.is_none());
    assert_eq!(node.total_visits, 0);
    assert!(summary.visits.iter().all(|count| *count == 0));
    // Nothing is legal, and all weight falls on action 0.
    assert_eq!(the_one(&summary.weights), 0);
    assert_eq!(host.engine.len(), 1);
}

#[test]
fn a_winning_move_is_found_and_valued() {
    let mut board = placed_board();
    board.levels[idx(2, 2)] = 2;
    board.levels[idx(2, 3)] = 3;
    let mut host = Host::new(small(200), 6);
    let summary = host.search(&board.to_vec(), 0, true, true).unwrap();
    let action = the_one(&summary.weights);
    assert_eq!(action / 9, 5);
    let mut after = board;
    assert_eq!(after.make_move(action, 0), Ok(1));
    assert_eq!(after.result_value(1), Some(1));
    let root = host.engine.node(&board.key()).unwrap();
    assert!(root.values.as_ref().unwrap().q[action] > 0.99);
}

#[test]
fn a_short_policy_is_refused() {
    let mut host = Host::new(small(4), 1);
    host.short_policy = true;
    let outcome = host.search(&placed_board().to_vec(), 0, true, true);
    assert_eq!(outcome.err(), Some(SearchError::Predictor));
    assert_eq!(host.engine.len(), 0);
}

#[test]
fn a_missing_root_is_reported() {
    let mut host = Host::new(small(4), 1);
    let plan = begin_search(&host.engine.config, &[0i8; 75], 0, true, false).unwrap();
    let outcome = host.engine.root_distribution(&plan, &[0u32; 162], true);
    assert_eq!(outcome.err(), Some(SearchError::MissingNode));
    let mut sim = Simulation::start(&plan, 1);
    let outcome = host.engine.descend(&mut sim, &[0i32; 162], &[0u32; 162]);
    assert_eq!(outcome, Err(SearchError::MissingNode));
    assert!(sim.path.is_empty());
}

#[test]
fn an_action_that_cannot_be_applied_stops_the_walk() {
    // Every cell is taken and worker 1 is missing: nothing is legal, yet the game is not over.
    let mut bytes = vec![0i8; 75];
    for cell in 0..25 {
        bytes[3 * cell] = 2;
    }
    let mut host = Host::new(small(4), 1);
    let plan = begin_search(&host.engine.config, &bytes, 0, true, false).unwrap();
    let mut sim = Simulation::start(&plan, 1);
    let estimates = Estimates { prior: vec![0.0; 162], q: vec![0.0; 162], mean: 0.0 };
    assert!(matches!(host.engine.advance(&sim), Step::Evaluate { .. }));
    host.engine.expand(&sim, 162, estimates).unwrap();
    assert!(matches!(host.engine.advance(&sim), Step::Select { noise: false }));
    let outcome = host.engine.descend(&mut sim, &[0i32; 162], &[0u32; 162]);
    assert_eq!(outcome, Err(SearchError::Move(MoveError::Occupied)));
    assert!(sim.path.is_empty());
    assert_eq!(sim.board.to_vec(), bytes);
}

#[test]
fn noise_is_asked_for_once_at_a_known_root() {
    let cfg = MctsConfig { num_simulations: 4, dirichlet_noise: true, ..MctsConfig::default() };
    let mut host = Host::new(cfg, 1);
    let board = placed_board();
    let plan = begin_search(&cfg, &board.to_vec(), 0, true, false).unwrap();
    host.simulate(&plan, 1).unwrap();
    // The root is known now: the first simulation of the next search asks for noise.
    let first = Simulation::start(&plan, 1);
    assert!(matches!(host.engine.advance(&first), Step::Select { noise: true }));
    let second = Simulation::start(&plan, 2);
    assert!(matches!(host.engine.advance(&second), Step::Select { noise: false }));
    let partial = begin_search(&cfg, &board.to_vec(), 0, false, false).unwrap();
    let quiet = Simulation::start(&partial, 1);
    assert!(matches!(host.engine.advance(&quiet), Step::Select { noise: false }));
}

#[test]
fn descending_flips_the_board_and_leaves_a_crumb() {
    let mut host = Host::new(small(4), 1);
    let board = placed_board();
    let plan = begin_search(&host.engine.config, &board.to_vec(), 0, true, false).unwrap();
    host.simulate(&plan, 1).unwrap();
    let mut sim = Simulation::start(&plan, 2);
    let mut scores = [0i32; 162];
    let action = encode_action(0, 5, 5);
    scores[action] = 9;
    assert_eq!(host.engine.descend(&mut sim, &scores, &[0u32; 162]), Ok(action));
    assert_eq!(sim.path.len(), 1);
    assert_eq!(sim.path[0].key, board.key());
    assert_eq!(sim.path[0].action, action);
    assert!(sim.path[0].flipped);
    assert!(sim.root_flipped);
    let mut expected = board;
    expected.make_move(action, 0).unwrap();
    assert_eq!(sim.board.to_vec(), expected.canonicalised(1).to_vec());
    assert_eq!(sim.board.round(), 1);
}

#[test]
fn values_change_sign_with_the_side_to_move() {
    let mut host = Host::new(small(4), 1);
    let first = placed_board();
    let mut second = placed_board();
    second.round = 1;
    let mut third = placed_board();
    third.round = 2;
    for board in [first, second, third] {
        let plan = begin_search(&host.engine.config, &board.to_vec(), 0, true, false).unwrap();
        host.simulate(&plan, 1).unwrap();
    }
    let missing = [9i8; 75];
    let path = vec![
        Crumb { key: first.key(), action: 7, flipped: true },
        Crumb { key: missing, action: 1, flipped: false },
        Crumb { key: second.key(), action: 8, flipped: true },
        Crumb { key: third.key(), action: 9, flipped: false },
        Crumb { key: first.key(), action: 7, flipped: true },
    ];
    let backups = host.engine.backpropagate(&path);
    assert_eq!(backups.len(), 5);
    let negated: Vec<bool> = backups.iter().map(|backup| backup.negated).collect();
    assert_eq!(negated, vec![true, true, false, false, true]);
    let found: Vec<bool> = backups.iter().map(|backup| backup.found).collect();
    assert_eq!(found, vec![true, true, true, false, true]);
    assert_eq!(backups[0].key, first.key());
    assert_eq!((backups[0].edge_visits, backups[0].total_visits), (1, 1));
    assert_eq!((backups[4].edge_visits, backups[4].total_visits), (2, 2));
    assert_eq!((backups[3].edge_visits, backups[3].total_visits), (0, 0));
    assert_eq!(backups[1].action, 9);
    let node = host.engine.node(&first.key()).unwrap();
    assert_eq!(node.edge_visits[7], 2);
    assert_eq!(node.total_visits, 2);
    assert_eq!(host.engine.node(&second.key()).unwrap().total_visits, 1);
}

#[test]
fn every_node_counts_what_its_edges_count() {
    let mut host = Host::new(small(60), 9);
    host.search(&placed_board().to_vec(), 0, true, true).unwrap();
    let keys = host.engine.keys();
    assert_eq!(keys.len(), host.engine.len());
    assert!(keys.len() > 1);
    for key in keys {
        let node = host.engine.node(&key).unwrap();
        assert_eq!(node.edge_visits.iter().sum::<u32>(), node.total_visits);
        let board = BoardState::from_bytes(&key);
        let mut mask = [false; 162];
        board.valid_moves(0, &mut mask);
        assert_eq!(node.valid, mask);
        assert_eq!(node.terminal_value, board.result_value(0));
        assert_eq!(node.round, board.round());
        assert_eq!(node.terminal_value.is_some(), node.values.is_none());
    }
}

#[test]
fn cleanup_drops_old_rounds() {
    let cfg = MctsConfig {
        num_simulations: 6,
        cleanup_interval: 20,
        retain_rounds: 5,
        ..MctsConfig::default()
    };
    let mut host = Host::new(cfg, 1);
    for round in 1..=42u16 {
        let mut board = placed_board();
        board.round = round;
        host.search(&board.to_vec(), (round % 2) as u8, true, true).unwrap();
        let oldest = host
            .engine
            .keys()
            .iter()
            .map(|key| host.engine.node(key).unwrap().round)
            .min()
            .unwrap();
        if round < 21 {
            assert_eq!(host.engine.last_cleanup_round(), 0);
            assert_eq!(oldest, 1);
        } else if round < 42 {
            assert_eq!(host.engine.last_cleanup_round(), 21);
            assert_eq!(oldest, 16);
        } else {
            assert_eq!(host.engine.last_cleanup_round(), 42);
            assert_eq!(oldest, 37);
        }
    }
}

#[test]
fn cleanup_can_be_switched_off() {
    let cfg = MctsConfig { num_simulations: 2, no_mem_optim: true, ..MctsConfig::default() };
    let mut host = Host::new(cfg, 1);
    for round in [1u16, 60] {
        let mut board = placed_board();
        board.round = round;
        host.search(&board.to_vec(), 0, true, true).unwrap();
    }
    assert_eq!(host.engine.last_cleanup_round(), 0);
    let mut first = placed_board();
    first.round = 1;
    assert!(host.engine.node(&first.key()).is_some());
}

#[test]
fn estimates_are_not_attached_to_finished_games() {
    let mut board = placed_board();
    board.levels[idx(2, 2)] = 3;
    let mut host = Host::new(small(2), 1);
    host.search(&board.to_vec(), 0, true, true).unwrap();
    let estimates = Estimates { prior: vec![0.0; 162], q: vec![0.0; 162], mean: 0.5 };
    assert!(!host.engine.set_values(&board.key(), estimates.clone()));
    assert!(!host.engine.set_values(&[1i8; 75], estimates));
    assert_eq!(host.engine.node(&board.key()).unwrap().terminal_value, Some(1));
}

#[test]
fn the_same_seed_gives_the_same_search() {
    let board = placed_board();
    let mut outcomes = Vec::new();
    for _ in 0..2 {
        let mut host = Host::new(small(30), 0);
        host.engine.set_seed(1234);
        let first = host.search(&board.to_vec(), 0, true, true).unwrap();
        let second = host.search(&board.to_vec(), 0, true, true).unwrap();
        outcomes.push((first.weights, first.visits, second.weights, second.visits));
    }
    assert_eq!(outcomes[0], outcomes[1]);
}

#[test]
fn ties_are_broken_by_the_seeded_draw() {
    // Two actions of the root have one visit each: the draw between them follows the seed.
    let board = placed_board();
    let mut picks = Vec::new();
    for seed in 0..40u64 {
        let mut host = Host::new(small(1), 0);
        let plan = begin_search(&host.engine.config, &board.to_vec(), 0, true, false).unwrap();
        host.simulate(&plan, 1).unwrap();
        let first = encode_action(0, 5, 5);
        let second = encode_action(1, 8, 7);
        let path = vec![Crumb { key: board.key(), action: first, flipped: true }];
        host.engine.backpropagate(&path);
        let path = vec![Crumb { key: board.key(), action: second, flipped: true }];
        host.engine.backpropagate(&path);
        host.engine.set_seed(seed);
        let summary = host.engine.root_distribution(&plan, &[0u32; 162], true).unwrap();
        let pick = the_one(&summary.weights);
        assert!(pick == first || pick == second);
        host.engine.set_seed(seed);
        let again = host.engine.root_distribution(&plan, &[0u32; 162], true).unwrap();
        assert_eq!(the_one(&again.weights), pick);
        picks.push(pick);
    }
    assert!(picks.contains(&encode_action(0, 5, 5)));
    assert!(picks.contains(&encode_action(1, 8, 7)));
}

#[test]
fn set_seed_replaces_the_generator() {
    let mut host = Host::new(small(1), 1);
    assert!(host.engine.rng != SmallRng::seed_from_u64(77));
    host.engine.set_seed(77);
    assert!(host.engine.rng == SmallRng::seed_from_u64(77));
    let mut other = Host::new(small(1), 5);
    other.engine.set_seed(77);
    assert!(host.engine.rng == other.engine.rng);
    other.engine.set_seed(78);
    assert!(host.engine.rng != other.engine.rng);
    assert_eq!(host.engine.len(), 0);
    assert_eq!(host.engine.config.num_simulations, 1);
}
