//! What holds of the search driver on every tree and every walk.

use vstd::prelude::*;
use crate::board::Position;
use crate::laws::legal_action_applies;
use crate::mcts::{
    budget_of, cleanup_threshold, is_greedy_choice, node_fits, one_hot, propagate, visited,
    Backup, Crumb, MctsConfig,
};
use crate::node::{sum_visits, visit_keeps_counts, NodeView};
use crate::table::kept_since;

verus! {

/// Whether an odd number of the steps of `path` from step `from` on
/// changed the side to act.
pub open spec fn odd_flips(path: Seq<Crumb>, from: int) -> bool
    decreases path.len() - from,
{
    if from >= path.len() {
        false
    } else {
        path[from].flipped != odd_flips(path, from + 1)
    }
}

/// Backpropagation keeps the counts of every node in agreement: in a tree
/// in which the visits of each node are the sum of the visits of its edges,
/// they still are afterwards. No node is added to the tree or taken from
/// it, and there is one record for each step of the path.
pub proof fn backpropagation_keeps_counts<S>(
    tree: Map<Seq<i8>, NodeView<S>>,
    path: Seq<Crumb>,
    negated: bool,
)
    requires
        forall|key: Seq<i8>| #[trigger] tree.dom().contains(key) ==> tree[key].consistent(),
        forall|i: int| 0 <= i < path.len() ==> (#[trigger] path[i]).action < 162,
    ensures
        propagate(tree, path, negated).0.dom() == tree.dom(),
        propagate(tree, path, negated).1.len() == path.len(),
        forall|key: Seq<i8>| #[trigger]
            tree.dom().contains(key) ==> {
                let node: NodeView<S> = propagate(tree, path, negated).0[key];
                &&& node.total_visits == sum_visits(node.edge_visits)
                &&& node.valid == tree[key].valid
                &&& node.terminal_value == tree[key].terminal_value
                &&& node.round == tree[key].round
                &&& node.values == tree[key].values
                &&& node.total_visits >= tree[key].total_visits
            },
    decreases path.len(),
{
    if path.len() > 0 {
        let crumb: Crumb = path.last();
        let after: Map<Seq<i8>, NodeView<S>> = visited(tree, crumb);
        assert(path[path.len() - 1].action < 162);
        if tree.dom().contains(crumb.key@) {
            visit_keeps_counts(tree[crumb.key@], crumb.action as int);
        }
        assert(after.dom() =~= tree.dom());
        assert forall|key: Seq<i8>| #[trigger] after.dom().contains(key) implies after[key].consistent() by {
            assert(tree.dom().contains(key));
        }
        assert forall|i: int| 0 <= i < path.drop_last().len() implies (#[trigger] path.drop_last()[i]).action
            < 162 by {
            assert(path[i].action < 162);
        }
        backpropagation_keeps_counts(after, path.drop_last(), negated != crumb.flipped);
        assert forall|key: Seq<i8>| #[trigger] tree.dom().contains(key) implies ({
            let node: NodeView<S> = propagate(tree, path, negated).0[key];
            &&& node.total_visits == sum_visits(node.edge_visits)
            &&& node.valid == tree[key].valid
            &&& node.terminal_value == tree[key].terminal_value
            &&& node.round == tree[key].round
            &&& node.values == tree[key].values
            &&& node.total_visits >= tree[key].total_visits
        }) by {
            assert(after.dom().contains(key));
        }
    }
}

/// The sign law of backpropagation: the value of a simulation reaches a
/// step of the walk negated exactly where an odd number of steps, from that
/// step to the end of the walk, changed the side to act. The records come
/// in the order of the visits, the last step of the walk first.
pub proof fn backpropagation_sign_law<S>(
    tree: Map<Seq<i8>, NodeView<S>>,
    path: Seq<Crumb>,
    step: int,
)
    requires
        0 <= step < path.len(),
    ensures
        propagate(tree, path, false).1.len() == path.len(),
        ({
            let record: Backup = propagate(tree, path, false).1[path.len() - 1 - step];
            &&& record.key == path[step].key
            &&& record.action == path[step].action
            &&& record.negated == odd_flips(path, step)
        }),
{
    signs_along(tree, path, false, step);
}

/// The records of a walk that is entered with the sign `negated`.
proof fn signs_along<S>(
    tree: Map<Seq<i8>, NodeView<S>>,
    path: Seq<Crumb>,
    negated: bool,
    step: int,
)
    requires
        0 <= step < path.len(),
    ensures
        propagate(tree, path, negated).1.len() == path.len(),
        ({
            let record: Backup = propagate(tree, path, negated).1[path.len() - 1 - step];
            &&& record.key == path[step].key
            &&& record.action == path[step].action
            &&& record.negated == (negated != odd_flips(path, step))
        }),
    decreases path.len(),
{
    let crumb: Crumb = path.last();
    let sign: bool = negated != crumb.flipped;
    let after: Map<Seq<i8>, NodeView<S>> = visited(tree, crumb);
    lengths_along(after, path.drop_last(), sign);
    if step == path.len() - 1 {
        flips_of_last(path);
    } else {
        signs_along(after, path.drop_last(), sign, step);
        flips_of_prefix(path, step);
    }
}

/// There is one record for each step.
proof fn lengths_along<S>(tree: Map<Seq<i8>, NodeView<S>>, path: Seq<Crumb>, negated: bool)
    ensures
        propagate(tree, path, negated).1.len() == path.len(),
    decreases path.len(),
{
    if path.len() > 0 {
        let crumb: Crumb = path.last();
        lengths_along(visited(tree, crumb), path.drop_last(), negated != crumb.flipped);
    }
}

/// From its last step on, a path flips as that step does.
proof fn flips_of_last(path: Seq<Crumb>)
    requires
        path.len() > 0,
    ensures
        odd_flips(path, path.len() - 1) == path.last().flipped,
{
    assert(odd_flips(path, path.len() as int) == false);
}

/// The flips of a path from a step on are those of the path without its
/// last step, and that of the last step.
proof fn flips_of_prefix(path: Seq<Crumb>, from: int)
    requires
        0 <= from < path.len(),
    ensures
        odd_flips(path, from) == (odd_flips(path.drop_last(), from) != path.last().flipped),
    decreases path.len() - from,
{
    if from == path.len() - 1 {
        flips_of_last(path);
        assert(odd_flips(path.drop_last(), from) == false);
    } else {
        flips_of_prefix(path, from + 1);
        assert(path.drop_last()[from] == path[from]);
    }
}

/// What a cleanup leaves: exactly the nodes that were made in round
/// `threshold` or later, each as it was. After a cleanup at round `r` that
/// keeps `n` rounds, no node of an earlier round than `r - n` is left.
pub proof fn cleanup_keeps_recent_only<S>(
    tree: Map<Seq<i8>, NodeView<S>>,
    threshold: nat,
    key: Seq<i8>,
)
    ensures
        kept_since(tree, threshold).dom().contains(key) <==> tree.dom().contains(key)
            && tree[key].round >= threshold,
        kept_since(tree, threshold).dom().contains(key) ==> kept_since(tree, threshold)[key]
            == tree[key] && kept_since(tree, threshold)[key].round >= threshold,
{
}

/// The round below which a cleanup drops nodes lies the configured number
/// of rounds before the current one, and at round 0 at the earliest.
pub proof fn cleanup_threshold_is_bounded(config: MctsConfig, current_round: nat)
    ensures
        cleanup_threshold(config, current_round) + config.retain_rounds >= current_round,
        cleanup_threshold(config, current_round) <= current_round,
{
}

/// A search that plays its best puts all weight on one action, and on a
/// legal one wherever an action is legal.
pub proof fn greedy_weights_are_one_hot<S>(
    node: NodeView<S>,
    forced: bool,
    targets: Seq<u32>,
    pick: int,
)
    requires
        0 <= pick < 162,
        is_greedy_choice(node, forced, targets, pick),
    ensures
        one_hot(pick).len() == 162,
        one_hot(pick)[pick] == 1,
        forall|a: int| 0 <= a < 162 && a != pick ==> #[trigger] one_hot(pick)[a] == 0,
        node.has_valid() ==> node.valid[pick],
{
}

/// A full search runs all configured simulations. A partial search runs at
/// least one, and otherwise no more than the configured number divided by
/// the divisor.
pub proof fn partial_budget_is_a_share(config: MctsConfig)
    ensures
        budget_of(config, true) == config.num_simulations,
        budget_of(config, false) >= 1,
        budget_of(config, false) == 1 || budget_of(config, false) * config.partial_divisor
            <= config.num_simulations,
        budget_of(config, false) <= budget_of(config, true) || budget_of(config, false) == 1,
{
    let divisor: int = if config.partial_divisor < 1 {
        1
    } else {
        config.partial_divisor as int
    };
    let share: int = config.num_simulations as int / divisor;
    assert(share * divisor <= config.num_simulations) by (nonlinear_arith)
        requires
            divisor >= 1,
            share == config.num_simulations as int / divisor,
    ;
    assert(share <= config.num_simulations) by (nonlinear_arith)
        requires
            divisor >= 1,
            share >= 0,
            share * divisor <= config.num_simulations,
    ;
}

/// A well-formed board on which a worker is still to be placed has an empty
/// cell among its first five.
proof fn placement_has_room(position: Position)
    requires
        position.well_formed(),
    ensures
        exists|cell: int| 0 <= cell < 25 && #[trigger] position.workers[cell] == 0,
{
    let w = position.workers;
    if w[0] != 0 && w[1] != 0 && w[2] != 0 && w[3] != 0 && w[4] != 0 {
        assert(-2 <= w[0] <= 2 && -2 <= w[1] <= 2 && -2 <= w[2] <= 2 && -2 <= w[3] <= 2 && -2
            <= w[4] <= 2);
        assert(w[0] != w[1] && w[0] != w[2] && w[0] != w[3] && w[0] != w[4]);
        assert(w[1] != w[2] && w[1] != w[3] && w[1] != w[4]);
        assert(w[2] != w[3] && w[2] != w[4]);
        assert(w[3] != w[4]);
        assert(false);
    }
}

/// A well-formed board that does not end the game has a legal action for
/// player 0.
proof fn open_board_has_legal(position: Position)
    requires
        position.well_formed(),
        position.result(0) is None,
    ensures
        position.has_legal(0),
{
    if position.pending() is Some {
        placement_has_room(position);
        let cell: int = choose|cell: int| 0 <= cell < 25 && #[trigger] position.workers[cell] == 0;
        assert(position.legal(0, cell));
    }
}

/// Selection returns an action, and a legal one wherever an action is
/// legal.
pub proof fn selection_is_made<S>(
    node: NodeView<S>,
    scores: Seq<i32>,
    forced: bool,
    targets: Seq<u32>,
)
    ensures
        node.selects(scores, forced, targets, node.selection(scores, forced, targets)),
        0 <= node.selection(scores, forced, targets) < 162,
        node.has_valid() ==> node.valid[node.selection(scores, forced, targets)],
{
    if forced && exists|f: int| #[trigger] node.is_owed(targets, f) {
        let f: int = choose|f: int| #[trigger] node.is_owed(targets, f);
        assert(0 <= f <= 161 && node.is_owed(targets, f));
        first_owed_exists(node, targets, 161);
        let first: int = choose|first: int|
            {
                &&& #[trigger] node.is_owed(targets, first)
                &&& forall|f: int| 0 <= f < first ==> !#[trigger] node.is_owed(targets, f)
            };
        assert(node.selects(scores, forced, targets, first));
    } else if node.has_valid() {
        leader_exists(node, scores, 162);
        let best: int = choose|best: int| node.is_leader(scores, best);
        assert(node.selects(scores, forced, targets, best));
    } else {
        assert(node.selects(scores, forced, targets, 0));
    }
}

/// A walk does not get stuck on a board that play can reach: at a node of
/// a well-formed board that does not end the game, with player 0 to act,
/// the action that selection returns is legal and can be applied.
pub proof fn selected_action_applies<S>(
    key: Seq<i8>,
    node: NodeView<S>,
    scores: Seq<i32>,
    forced: bool,
    targets: Seq<u32>,
)
    requires
        node_fits(key, node),
        Position::decode(key).well_formed(),
        node.terminal_value is None,
        Position::decode(key).pending() matches Some(p) ==> p.0 == 0,
    ensures
        ({
            let action: int = node.selection(scores, forced, targets);
            &&& 0 <= action < 162
            &&& Position::decode(key).legal(0, action)
            &&& Position::decode(key).apply(action, 0) is Ok
        }),
{
    let position: Position = Position::decode(key);
    let action: int = node.selection(scores, forced, targets);
    open_board_has_legal(position);
    let witness: int = choose|a: int| 0 <= a < 162 && #[trigger] position.legal(0, a);
    assert(position.mask(0)[witness] == position.legal(0, witness));
    assert(node.valid[witness]);
    assert(node.has_valid());
    selection_is_made(node, scores, forced, targets);
    assert(position.mask(0)[action] == position.legal(0, action));
    legal_action_applies(position, 0, action);
}

/// Among the first `bound` actions, a node with a legal one has a first
/// legal action of the highest score.
proof fn leader_exists<S>(node: NodeView<S>, scores: Seq<i32>, bound: int)
    requires
        0 <= bound <= 162,
    ensures
        (exists|a: int| 0 <= a < bound && #[trigger] node.valid[a]) ==> exists|best: int|
            {
                &&& 0 <= best < bound
                &&& #[trigger] node.valid[best]
                &&& forall|b: int| 0 <= b < bound && #[trigger] node.valid[b] ==> scores[b] <= scores[best]
                &&& forall|b: int| 0 <= b < best && #[trigger] node.valid[b] ==> scores[b] < scores[best]
            },
        bound == 162 && node.has_valid() ==> exists|best: int| node.is_leader(scores, best),
    decreases bound,
{
    if bound > 0 {
        leader_exists(node, scores, bound - 1);
        let last: int = bound - 1;
        if exists|a: int| 0 <= a < bound - 1 && #[trigger] node.valid[a] {
            let before: int = choose|best: int|
                {
                    &&& 0 <= best < bound - 1
                    &&& #[trigger] node.valid[best]
                    &&& forall|b: int|
                        0 <= b < bound - 1 && #[trigger] node.valid[b] ==> scores[b] <= scores[best]
                    &&& forall|b: int| 0 <= b < best && #[trigger] node.valid[b] ==> scores[b] < scores[best]
                };
            if node.valid[last] && scores[last] > scores[before] {
                assert(node.valid[last]);
                assert(forall|b: int| 0 <= b < bound && #[trigger] node.valid[b] ==> scores[b] <= scores[last]);
                assert(forall|b: int| 0 <= b < last && #[trigger] node.valid[b] ==> scores[b] < scores[last]);
            } else {
                assert(node.valid[before]);
                assert(forall|b: int| 0 <= b < bound && #[trigger] node.valid[b] ==> scores[b] <= scores[before]);
            }
        } else if node.valid[last] {
            assert(forall|b: int| 0 <= b < last ==> !#[trigger] node.valid[b]);
        }
    }
    if bound == 162 && node.has_valid() {
        let best: int = choose|best: int|
            {
                &&& 0 <= best < bound
                &&& #[trigger] node.valid[best]
                &&& forall|b: int| 0 <= b < bound && #[trigger] node.valid[b] ==> scores[b] <= scores[best]
                &&& forall|b: int| 0 <= b < best && #[trigger] node.valid[b] ==> scores[b] < scores[best]
            };
        assert(node.is_leader(scores, best));
    }
}

/// Where an action at or below `bound` is owed a visit, there is a first
/// action that is.
proof fn first_owed_exists<S>(node: NodeView<S>, targets: Seq<u32>, bound: int)
    requires
        -1 <= bound < 162,
    ensures
        (exists|f: int| 0 <= f <= bound && #[trigger] node.is_owed(targets, f)) ==> exists|first: int|
            {
                &&& #[trigger] node.is_owed(targets, first)
                &&& forall|f: int| 0 <= f < first ==> !#[trigger] node.is_owed(targets, f)
            },
    decreases bound + 1,
{
    if bound >= 0 {
        first_owed_exists(node, targets, bound - 1);
        if !(exists|f: int| 0 <= f <= bound - 1 && #[trigger] node.is_owed(targets, f)) {
            if node.is_owed(targets, bound) {
                assert(forall|f: int| 0 <= f < bound ==> !#[trigger] node.is_owed(targets, f));
            }
        }
    }
}

/// A search for a player starts from the board that the player sees, and
/// so does a search that is handed that board for player 0: the two start
/// from the same root.
pub proof fn root_is_canonical(bytes: Seq<i8>, player: int)
    requires
        bytes.len() == 75,
    ensures
        Position::decode(Position::decode(bytes).canonical(player).encode()).canonical(0)
            == Position::decode(bytes).canonical(player),
{
    let seen: Position = Position::decode(bytes).canonical(player);
    crate::board::token_round_trip(seen);
}

} // verus!
