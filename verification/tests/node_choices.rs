use santorini_mcts::node::{pick_leader, tied_leaders, TreeNode};

fn mask(actions: &[usize]) -> [bool; 162] {
    let mut valid = [false; 162];
    for action in actions {
        valid[*action] = true;
    }
    valid
}

fn node(actions: &[usize]) -> TreeNode<u8> {
    TreeNode::from_prediction(mask(actions), 0u8, 3)
}

#[test]
fn fresh_nodes_have_no_visits() {
    let fresh = node(&[1, 2]);
    assert_eq!(fresh.total_visits, 0);
    assert!(fresh.edge_visits.iter().all(|count| *count == 0));
    assert_eq!(fresh.terminal_value, None);
    assert_eq!(fresh.round, 3);
    assert_eq!(fresh.values, Some(0u8));
    let over: TreeNode<u8> = TreeNode::terminal(mask(&[]), -1, 9);
    assert_eq!(over.terminal_value, Some(-1));
    assert_eq!(over.values, None);
    assert_eq!(over.total_visits, 0);
    assert_eq!(over.round, 9);
}

#[test]
fn selection_takes_the_first_of_the_best() {
    let subject = node(&[3, 10, 40]);
    let mut scores = [0i32; 162];
    let targets = [0u32; 162];
    scores[3] = -5;
    scores[10] = 7;
    scores[40] = 7;
    scores[50] = 100;
    assert_eq!(subject.select_action(&scores, false, &targets), 10);
    scores[40] = 8;
    assert_eq!(subject.select_action(&scores, false, &targets), 40);
    scores[3] = i32::MIN;
    scores[10] = i32::MIN;
    scores[40] = i32::MIN;
    assert_eq!(subject.select_action(&scores, false, &targets), 3);
}

#[test]
fn selection_without_a_legal_action_is_zero() {
    let subject = node(&[]);
    let mut scores = [0i32; 162];
    scores[5] = 9;
    assert_eq!(subject.select_action(&scores, true, &[9u32; 162]), 0);
}

#[test]
fn forced_playouts_come_first() {
    let mut subject = node(&[3, 10, 40]);
    let mut scores = [0i32; 162];
    scores[3] = 100;
    let mut targets = [0u32; 162];
    targets[10] = 2;
    targets[40] = 5;
    targets[7] = 50;
    assert_eq!(subject.select_action(&scores, true, &targets), 10);
    assert_eq!(subject.select_action(&scores, false, &targets), 3);
    subject.record_visit(10);
    assert_eq!(subject.select_action(&scores, true, &targets), 10);
    subject.record_visit(10);
    assert_eq!(subject.select_action(&scores, true, &targets), 40);
    targets[40] = 0;
    assert_eq!(subject.select_action(&scores, true, &targets), 3);
}

#[test]
fn visits_add_up() {
    let mut subject = node(&[3, 10]);
    subject.record_visit(3);
    subject.record_visit(10);
    subject.record_visit(10);
    assert_eq!(subject.edge_visits[3], 1);
    assert_eq!(subject.edge_visits[10], 2);
    assert_eq!(subject.total_visits, 3);
    let sum: u32 = subject.edge_visits.iter().sum();
    assert_eq!(sum, subject.total_visits);
    assert_eq!(subject.best_visits(), 2);
}

#[test]
fn counts_stop_before_overflow() {
    let mut subject = node(&[3]);
    subject.total_visits = u32::MAX;
    subject.edge_visits[3] = 7;
    subject.record_visit(3);
    assert_eq!(subject.total_visits, u32::MAX);
    assert_eq!(subject.edge_visits[3], 7);
}

#[test]
fn legal_actions_are_listed_in_order() {
    assert_eq!(node(&[40, 3, 10]).legal_actions(), vec![3, 10, 40]);
    assert_eq!(node(&[]).legal_actions(), Vec::<usize>::new());
}

#[test]
fn noise_needs_two_legal_actions() {
    assert_eq!(node(&[40, 3]).noise_targets(), vec![3, 40]);
    assert_eq!(node(&[40]).noise_targets(), Vec::<usize>::new());
    assert_eq!(node(&[]).noise_targets(), Vec::<usize>::new());
}

#[test]
fn root_counts_without_forced_playouts_are_the_visits() {
    let mut subject = node(&[3, 10]);
    subject.edge_visits[3] = 4;
    subject.edge_visits[10] = 1;
    subject.edge_visits[11] = 9;
    let counts = subject.root_counts(false, &[100u32; 162]);
    assert_eq!(counts.len(), 162);
    assert_eq!(counts[3], 4);
    assert_eq!(counts[10], 1);
    assert_eq!(counts[11], 0);
    let visits = subject.legal_visits();
    assert_eq!(visits[3], 4);
    assert_eq!(visits[10], 1);
    assert_eq!(visits[11], 0);
}

#[test]
fn forced_visits_are_taken_off_the_root_counts() {
    let mut subject = node(&[3, 10, 20, 30, 40]);
    subject.edge_visits[3] = 10;
    subject.edge_visits[10] = 6;
    subject.edge_visits[20] = 4;
    subject.edge_visits[30] = 10;
    subject.edge_visits[40] = 2;
    let mut targets = [0u32; 162];
    targets[3] = 8;
    targets[10] = 2;
    targets[20] = 3;
    targets[30] = 1;
    targets[40] = 5;
    let counts = subject.root_counts(true, &targets);
    // The most visited actions keep their visits.
    assert_eq!(counts[3], 10);
    assert_eq!(counts[30], 10);
    // 6 - 2 = 4 is more than one and stays.
    assert_eq!(counts[10], 4);
    // 4 - 3 = 1 is not more than one and goes.
    assert_eq!(counts[20], 0);
    // 2 - 5 is below zero and goes.
    assert_eq!(counts[40], 0);
}

#[test]
fn leaders_share_the_highest_count() {
    let valid = mask(&[3, 10, 40, 50]);
    let mut counts = vec![0u32; 162];
    counts[3] = 2;
    counts[10] = 5;
    counts[40] = 5;
    counts[41] = 9;
    assert_eq!(tied_leaders(&valid, &counts), vec![10, 40]);
    assert_eq!(tied_leaders(&mask(&[]), &counts), Vec::<usize>::new());
    assert_eq!(tied_leaders(&valid, &vec![0u32; 162]), vec![3, 10, 40, 50]);
}

#[test]
fn the_draw_picks_among_the_leaders() {
    let mut counts = vec![0u32; 162];
    counts[10] = 5;
    counts[40] = 5;
    let leaders = vec![10, 40];
    assert_eq!(pick_leader(&counts, &leaders, 0), 10);
    assert_eq!(pick_leader(&counts, &leaders, 1), 40);
    // Without any count the first legal action is taken, whatever the draw.
    assert_eq!(pick_leader(&vec![0u32; 162], &vec![3, 10, 40], 2), 3);
    assert_eq!(pick_leader(&counts, &Vec::new(), 0), 0);
}
