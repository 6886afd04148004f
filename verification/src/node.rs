//! The statistics that a search keeps for one board.
//!
//! A node counts how often each action was taken from its board. The
//! estimates that guide the search (priors, running means) are numbers of
//! the evaluator's own kind; a node carries them as `S` and never looks
//! inside. What is chosen on the strength of them is decided here, from the
//! ranks and thresholds that the evaluator's side derives.

use vstd::prelude::*;

verus! {

/// The mathematical model of a node.
pub struct NodeView<S> {
    /// The legality mask of the node's board.
    pub valid: Seq<bool>,
    /// How often each action was taken from this node.
    pub edge_visits: Seq<u32>,
    /// How often a simulation passed through this node.
    pub total_visits: u32,
    /// The value of the game, where the node's board ends it.
    pub terminal_value: Option<int>,
    /// The round of the node's board when the node was made.
    pub round: nat,
    /// The evaluator's estimates; none for a board that ends the game.
    pub values: Option<S>,
}

/// The sum of a sequence of counts.
pub open spec fn sum_visits(visits: Seq<u32>) -> nat
    decreases visits.len(),
{
    if visits.len() == 0 {
        0
    } else {
        sum_visits(visits.drop_last()) + visits.last() as nat
    }
}

impl<S> NodeView<S> {
    /// Mask and counts have one entry per action.
    pub open spec fn shaped(self) -> bool {
        self.valid.len() == 162 && self.edge_visits.len() == 162
    }

    /// The counts agree: the visits of the node are the visits of its
    /// edges taken together.
    pub open spec fn consistent(self) -> bool {
        &&& self.shaped()
        &&& self.total_visits == sum_visits(self.edge_visits)
    }

    /// Whether some action is legal.
    pub open spec fn has_valid(self) -> bool {
        exists|a: int| 0 <= a < 162 && #[trigger] self.valid[a]
    }

    /// The node after one more visit that took `action`. The counts stop
    /// short of overflowing: a node whose counts cannot both take one more
    /// stays as it is.
    pub open spec fn recorded(self, action: int) -> NodeView<S> {
        if self.total_visits < u32::MAX && self.edge_visits[action] < u32::MAX {
            NodeView {
                edge_visits: self.edge_visits.update(
                    action,
                    (self.edge_visits[action] + 1) as u32,
                ),
                total_visits: (self.total_visits + 1) as u32,
                ..self
            }
        } else {
            self
        }
    }

    /// The node with other estimates attached.
    pub open spec fn with_values(self, values: Option<S>) -> NodeView<S> {
        NodeView { values: values, ..self }
    }

    /// Whether `action` is legal and has fewer visits than its threshold.
    pub open spec fn is_owed(self, targets: Seq<u32>, action: int) -> bool {
        0 <= action < 162 && self.valid[action] && self.edge_visits[action] < targets[action]
    }

    /// Whether `action` is the first legal action of the highest rank.
    pub open spec fn is_leader(self, scores: Seq<i32>, action: int) -> bool {
        &&& 0 <= action < 162
        &&& self.valid[action]
        &&& forall|b: int| 0 <= b < 162 && #[trigger] self.valid[b] ==> scores[b] <= scores[action]
        &&& forall|b: int| 0 <= b < action && #[trigger] self.valid[b] ==> scores[b] < scores[action]
    }

    /// Whether `action` is what selection returns. With forced playouts,
    /// the first legal action whose visits are below its threshold wins
    /// outright. Otherwise the legal action of the highest rank wins, the
    /// first of them where several share it. A node without a legal action
    /// selects action 0.
    pub open spec fn selects(
        self,
        scores: Seq<i32>,
        forced: bool,
        targets: Seq<u32>,
        action: int,
    ) -> bool {
        if forced && exists|f: int| #[trigger] self.is_owed(targets, f) {
            &&& self.is_owed(targets, action)
            &&& forall|f: int| 0 <= f < action ==> !#[trigger] self.is_owed(targets, f)
        } else if self.has_valid() {
            self.is_leader(scores, action)
        } else {
            action == 0
        }
    }

    /// The action that selection returns.
    pub open spec fn selection(self, scores: Seq<i32>, forced: bool, targets: Seq<u32>) -> int {
        choose|action: int| self.selects(scores, forced, targets, action)
    }

    /// Whether `best` is the highest visit count of a legal action, or 0
    /// where no legal action was visited.
    pub open spec fn is_best_visits(self, best: int) -> bool {
        &&& 0 <= best
        &&& forall|a: int| 0 <= a < 162 && #[trigger] self.valid[a] ==> self.edge_visits[a] <= best
        &&& best == 0 || exists|a: int|
            0 <= a < 162 && #[trigger] self.valid[a] && self.edge_visits[a] == best
    }

    /// The highest visit count of a legal action.
    pub open spec fn best_visits(self) -> int {
        choose|best: int| self.is_best_visits(best)
    }

    /// The count that `action` brings to the root distribution.
    ///
    /// An illegal action brings none. Without forced playouts a legal
    /// action brings its visits. With them, the most visited actions keep
    /// their visits; every other loses the visits that its threshold
    /// forced, and what is left counts only if it is more than one.
    pub open spec fn root_count(self, forced: bool, targets: Seq<u32>, action: int) -> int {
        let visits: int = self.edge_visits[action] as int;
        if !self.valid[action] {
            0
        } else if !forced || visits == self.best_visits() {
            visits
        } else if visits - targets[action] > 1 {
            visits - targets[action]
        } else {
            0
        }
    }
}

/// Whether `action` is a legal action whose count no legal action exceeds.
pub open spec fn is_top(valid: Seq<bool>, counts: Seq<u32>, action: int) -> bool {
    &&& 0 <= action < 162
    &&& valid[action]
    &&& forall|b: int| 0 <= b < 162 && #[trigger] valid[b] ==> counts[b] <= counts[action]
}

/// Whether `leaders` lists, in rising order, exactly the legal actions of
/// the highest count.
pub open spec fn lists_top(valid: Seq<bool>, counts: Seq<u32>, leaders: Seq<usize>) -> bool {
    &&& forall|i: int| 0 <= i < leaders.len() ==> is_top(valid, counts, #[trigger] leaders[i] as int)
    &&& forall|i: int, j: int| 0 <= i < j < leaders.len() ==> leaders[i] < leaders[j]
    &&& forall|a: int| is_top(valid, counts, a) ==> exists|i: int|
        0 <= i < leaders.len() && #[trigger] leaders[i] == a
}

/// Whether `actions` lists, in rising order, exactly the legal actions.
pub open spec fn lists_valid(valid: Seq<bool>, actions: Seq<usize>) -> bool {
    &&& forall|i: int| 0 <= i < actions.len() ==> actions[i] < 162 && valid[#[trigger] actions[i] as int]
    &&& forall|i: int, j: int| 0 <= i < j < actions.len() ==> actions[i] < actions[j]
    &&& forall|a: int| 0 <= a < 162 && valid[a] ==> exists|i: int|
        0 <= i < actions.len() && #[trigger] actions[i] == a
}

/// The action that a search plays when it plays its best: action 0 where
/// nothing is legal, the first legal action where no legal action has a
/// count, and otherwise the leader that `draw` points at.
pub open spec fn greedy_pick(counts: Seq<u32>, leaders: Seq<usize>, draw: int) -> int {
    if leaders.len() == 0 {
        0
    } else if counts[leaders[0] as int] == 0 {
        leaders[0] as int
    } else {
        leaders[draw] as int
    }
}

/// The statistics of one board.
pub struct TreeNode<S> {
    /// The legality mask of the node's board.
    pub valid: [bool; 162],
    /// How often each action was taken from this node.
    pub edge_visits: [u32; 162],
    /// How often a simulation passed through this node.
    pub total_visits: u32,
    /// The value of the game, where the node's board ends it: `1` or `-1`.
    pub terminal_value: Option<i8>,
    /// The round of the node's board when the node was made.
    pub round: u16,
    /// The evaluator's estimates; none for a board that ends the game.
    pub values: Option<S>,
}

impl<S> View for TreeNode<S> {
    type V = NodeView<S>;

    open spec fn view(&self) -> NodeView<S> {
        NodeView {
            valid: self.valid@,
            edge_visits: self.edge_visits@,
            total_visits: self.total_visits,
            terminal_value: match self.terminal_value {
                Some(v) => Some(v as int),
                None => None,
            },
            round: self.round as nat,
            values: self.values,
        }
    }
}

/// A sequence of zeros sums to zero.
pub proof fn sum_of_zeros(visits: Seq<u32>)
    requires
        forall|a: int| 0 <= a < visits.len() ==> #[trigger] visits[a] == 0,
    ensures
        sum_visits(visits) == 0,
    decreases visits.len(),
{
    if visits.len() > 0 {
        sum_of_zeros(visits.drop_last());
    }
}

/// One more visit of one edge is one more in the sum.
pub proof fn sum_after_visit(visits: Seq<u32>, action: int)
    requires
        0 <= action < visits.len(),
        visits[action] < u32::MAX,
    ensures
        sum_visits(visits.update(action, (visits[action] + 1) as u32)) == sum_visits(visits) + 1,
    decreases visits.len(),
{
    let after: Seq<u32> = visits.update(action, (visits[action] + 1) as u32);
    if action == visits.len() - 1 {
        assert(after.drop_last() =~= visits.drop_last());
    } else {
        sum_after_visit(visits.drop_last(), action);
        assert(after.drop_last() =~= visits.drop_last().update(
            action,
            (visits[action] + 1) as u32,
        ));
    }
}

/// Recording a visit keeps the counts in agreement: the visits of a node
/// stay the sum of the visits of its edges.
pub proof fn visit_keeps_counts<S>(node: NodeView<S>, action: int)
    requires
        node.consistent(),
        0 <= action < 162,
    ensures
        node.recorded(action).consistent(),
{
    if node.total_visits < u32::MAX && node.edge_visits[action] < u32::MAX {
        sum_after_visit(node.edge_visits, action);
    }
}

/// Selection returns one action, and no other.
pub proof fn selection_is_unique<S>(
    node: NodeView<S>,
    scores: Seq<i32>,
    forced: bool,
    targets: Seq<u32>,
    action: int,
)
    requires
        node.selects(scores, forced, targets, action),
    ensures
        node.selection(scores, forced, targets) == action,
{
    let chosen: int = node.selection(scores, forced, targets);
    assert(node.selects(scores, forced, targets, chosen));
    if forced && exists|f: int| #[trigger] node.is_owed(targets, f) {
        if chosen < action {
            assert(!node.is_owed(targets, chosen));
        }
        if action < chosen {
            assert(!node.is_owed(targets, action));
        }
    } else if node.has_valid() {
        if chosen < action {
            assert(node.valid[chosen]);
            assert(node.valid[action]);
        }
        if action < chosen {
            assert(node.valid[chosen]);
            assert(node.valid[action]);
        }
    }
}

/// There is one highest visit count, and no other.
pub proof fn best_visits_is_unique<S>(node: NodeView<S>, best: int)
    requires
        node.is_best_visits(best),
    ensures
        node.best_visits() == best,
{
    let chosen: int = node.best_visits();
    assert(node.is_best_visits(chosen));
    if chosen < best {
        let a: int = choose|a: int|
            0 <= a < 162 && #[trigger] node.valid[a] && node.edge_visits[a] == best;
        assert(node.valid[a]);
    }
    if best < chosen {
        let a: int = choose|a: int|
            0 <= a < 162 && #[trigger] node.valid[a] && node.edge_visits[a] == chosen;
        assert(node.valid[a]);
    }
}

impl<S> TreeNode<S> {
    /// A fresh node for a board that the evaluator has judged: no visits
    /// yet, the game not over, `values` attached.
    pub fn from_prediction(valid: [bool; 162], values: S, round: u16) -> (node: TreeNode<S>)
        ensures
            node@.valid == valid@,
            forall|a: int| 0 <= a < 162 ==> #[trigger] node@.edge_visits[a] == 0,
            node@.total_visits == 0,
            node@.terminal_value is None,
            node@.round == round,
            node@.values == Some(values),
            node@.consistent(),
    {
        let node = TreeNode {
            valid: valid,
            edge_visits: [0u32;162],
            total_visits: 0,
            terminal_value: None,
            round: round,
            values: Some(values),
        };
        proof {
            sum_of_zeros(node@.edge_visits);
        }
        node
    }

    /// A fresh node for a board that ends the game with `value`: no
    /// visits, nothing attached.
    pub fn terminal(valid: [bool; 162], value: i8, round: u16) -> (node: TreeNode<S>)
        ensures
            node@.valid == valid@,
            forall|a: int| 0 <= a < 162 ==> #[trigger] node@.edge_visits[a] == 0,
            node@.total_visits == 0,
            node@.terminal_value == Some(value as int),
            node@.round == round,
            node@.values is None,
            node@.consistent(),
    {
        let node = TreeNode {
            valid: valid,
            edge_visits: [0u32;162],
            total_visits: 0,
            terminal_value: Some(value),
            round: round,
            values: None,
        };
        proof {
            sum_of_zeros(node@.edge_visits);
        }
        node
    }

    /// Selects the action to descend by. `scores[a]` ranks action `a`: a
    /// higher score is preferred. `targets[a]` is the number of visits that
    /// forced playouts owe to action `a`; it is read only where `forced`
    /// is set.
    pub fn select_action(&self, scores: &[i32; 162], forced: bool, targets: &[u32; 162]) -> (action:
        usize)
        ensures
            action < 162,
            self@.selects(scores@, forced, targets@, action as int),
            action == self@.selection(scores@, forced, targets@),
            self@.has_valid() ==> self@.valid[action as int],
    {
        let action: usize = self.first_choice(scores, forced, targets);
        proof {
            selection_is_unique(self@, scores@, forced, targets@, action as int);
        }
        action
    }

    /// The search behind [`TreeNode::select_action`].
    fn first_choice(&self, scores: &[i32; 162], forced: bool, targets: &[u32; 162]) -> (action:
        usize)
        ensures
            action < 162,
            self@.selects(scores@, forced, targets@, action as int),
            self@.has_valid() ==> self@.valid[action as int],
    {
        let mut found: bool = false;
        let mut best: i32 = 0;
        let mut best_action: usize = 0;
        let mut action: usize = 0;
        while action < 162
            invariant
                action <= 162,
                best_action < 162,
                forall|f: int| 0 <= f < action ==> !(forced && #[trigger] self@.is_owed(targets@, f)),
                !found ==> best_action == 0 && forall|b: int|
                    0 <= b < action ==> !#[trigger] self@.valid[b],
                found ==> {
                    &&& best_action < action
                    &&& self@.valid[best_action as int]
                    &&& best == scores@[best_action as int]
                    &&& forall|b: int|
                        0 <= b < action && #[trigger] self@.valid[b] ==> scores@[b] <= best
                    &&& forall|b: int|
                        0 <= b < best_action && #[trigger] self@.valid[b] ==> scores@[b] < best
                },
            decreases 162 - action,
        {
            if self.valid[action] {
                if forced && self.edge_visits[action] < targets[action] {
                    assert(self@.is_owed(targets@, action as int));
                    assert(self@.valid[action as int]);
                    return action;
                }
                if !found || scores[action] > best {
                    found = true;
                    best = scores[action];
                    best_action = action;
                }
            }
            action = action + 1;
        }
        proof {
            if found {
                assert(self@.valid[best_action as int]);
            }
        }
        best_action
    }

    /// Counts one more visit that took `action`.
    pub fn record_visit(&mut self, action: usize)
        requires
            action < 162,
        ensures
            final(self)@ == old(self)@.recorded(action as int),
    {
        if self.total_visits < u32::MAX && self.edge_visits[action] < u32::MAX {
            let visits: u32 = self.edge_visits[action];
            self.edge_visits[action] = visits + 1;
            self.total_visits = self.total_visits + 1;
            assert(self@.edge_visits =~= old(self)@.recorded(action as int).edge_visits);
        }
    }

    /// The legal actions, in rising order.
    pub fn legal_actions(&self) -> (actions: Vec<usize>)
        ensures
            lists_valid(self@.valid, actions@),
            actions@.len() <= 162,
    {
        let mut actions: Vec<usize> = Vec::new();
        let mut action: usize = 0;
        while action < 162
            invariant
                action <= 162,
                actions@.len() <= action,
                forall|i: int|
                    0 <= i < actions@.len() ==> actions@[i] < action && self@.valid[#[trigger] actions@[i] as int],
                forall|i: int, j: int| 0 <= i < j < actions@.len() ==> actions@[i] < actions@[j],
                forall|a: int|
                    0 <= a < action && self@.valid[a] ==> exists|i: int|
                        0 <= i < actions@.len() && #[trigger] actions@[i] == a,
            decreases 162 - action,
        {
            if self.valid[action] {
                let ghost before: Seq<usize> = actions@;
                actions.push(action);
                assert forall|a: int| 0 <= a < action + 1 && self@.valid[a] implies exists|i: int|
                    0 <= i < actions@.len() && #[trigger] actions@[i] == a by {
                    if a < action {
                        let i: int = choose|i: int| 0 <= i < before.len() && #[trigger] before[i] == a;
                        assert(actions@[i] == a);
                    } else {
                        assert(actions@[before.len() as int] == a);
                    }
                }
            }
            action = action + 1;
        }
        actions
    }

    /// The actions whose priors root noise is mixed into: the legal
    /// actions, in rising order, where there are at least two of them, and
    /// none otherwise.
    pub fn noise_targets(&self) -> (actions: Vec<usize>)
        ensures
            actions@.len() != 1,
            actions@.len() <= 162,
            actions@.len() >= 2 ==> lists_valid(self@.valid, actions@),
            actions@.len() == 0 ==> forall|a: int, b: int|
                0 <= a < b < 162 ==> !(self@.valid[a] && self@.valid[b]),
    {
        let actions: Vec<usize> = self.legal_actions();
        if actions.len() < 2 {
            proof {
                assert forall|a: int, b: int| 0 <= a < b < 162 implies !(self@.valid[a]
                    && self@.valid[b]) by {
                    if self@.valid[a] && self@.valid[b] {
                        let i: int = choose|i: int|
                            0 <= i < actions@.len() && #[trigger] actions@[i] == a;
                        let j: int = choose|j: int|
                            0 <= j < actions@.len() && #[trigger] actions@[j] == b;
                        assert(i != j);
                    }
                }
            }
            Vec::new()
        } else {
            actions
        }
    }

    /// The highest visit count of a legal action.
    pub fn best_visits(&self) -> (best: u32)
        ensures
            best == self@.best_visits(),
            self@.is_best_visits(best as int),
    {
        let mut best: u32 = 0;
        let mut action: usize = 0;
        while action < 162
            invariant
                action <= 162,
                forall|a: int|
                    0 <= a < action && #[trigger] self@.valid[a] ==> self@.edge_visits[a] <= best,
                best == 0 || exists|a: int|
                    0 <= a < 162 && #[trigger] self@.valid[a] && self@.edge_visits[a] == best,
            decreases 162 - action,
        {
            if self.valid[action] && self.edge_visits[action] > best {
                best = self.edge_visits[action];
                assert(self@.valid[action as int] && self@.edge_visits[action as int] == best);
            }
            action = action + 1;
        }
        proof {
            best_visits_is_unique(self@, best as int);
        }
        best
    }

    /// The counts that the root distribution is shaped from, one per
    /// action. `targets[a]` is the number of visits that forced playouts
    /// owed to action `a` over the whole search; it is read only where
    /// `forced` is set.
    pub fn root_counts(&self, forced: bool, targets: &[u32; 162]) -> (counts: Vec<u32>)
        ensures
            counts@.len() == 162,
            forall|a: int|
                0 <= a < 162 ==> #[trigger] counts@[a] == self@.root_count(forced, targets@, a),
    {
        let best: u32 = self.best_visits();
        let mut counts: Vec<u32> = Vec::with_capacity(162);
        let mut action: usize = 0;
        while action < 162
            invariant
                action <= 162,
                counts@.len() == action,
                best == self@.best_visits(),
                forall|a: int|
                    0 <= a < action ==> #[trigger] counts@[a] == self@.root_count(
                        forced,
                        targets@,
                        a,
                    ),
            decreases 162 - action,
        {
            let visits: u32 = self.edge_visits[action];
            let count: u32 = if !self.valid[action] {
                0
            } else if !forced || visits == best {
                visits
            } else if visits > targets[action] && visits - targets[action] > 1 {
                visits - targets[action]
            } else {
                0
            };
            counts.push(count);
            action = action + 1;
        }
        counts
    }

    /// The visits of each action, with 0 for an illegal one.
    pub fn legal_visits(&self) -> (visits: Vec<u32>)
        ensures
            visits@.len() == 162,
            forall|a: int|
                0 <= a < 162 ==> #[trigger] visits@[a] == (if self@.valid[a] {
                    self@.edge_visits[a]
                } else {
                    0u32
                }),
    {
        let mut visits: Vec<u32> = Vec::with_capacity(162);
        let mut action: usize = 0;
        while action < 162
            invariant
                action <= 162,
                visits@.len() == action,
                forall|a: int|
                    0 <= a < action ==> #[trigger] visits@[a] == (if self@.valid[a] {
                        self@.edge_visits[a]
                    } else {
                        0u32
                    }),
            decreases 162 - action,
        {
            visits.push(
                if self.valid[action] {
                    self.edge_visits[action]
                } else {
                    0
                },
            );
            action = action + 1;
        }
        visits
    }
}

/// The legal actions of the highest count, in rising order.
pub fn tied_leaders(valid: &[bool; 162], counts: &Vec<u32>) -> (leaders: Vec<usize>)
    requires
        counts@.len() == 162,
    ensures
        lists_top(valid@, counts@, leaders@),
        leaders@.len() <= 162,
        leaders@.len() == 0 <==> !exists|a: int| 0 <= a < 162 && #[trigger] valid@[a],
{
    let mut leaders: Vec<usize> = Vec::new();
    let mut found: bool = false;
    let mut best: u32 = 0;
    let mut action: usize = 0;
    while action < 162
        invariant
            action <= 162,
            counts@.len() == 162,
            leaders@.len() <= action,
            found == (leaders@.len() > 0),
            !found ==> forall|b: int| 0 <= b < action ==> !#[trigger] valid@[b],
            forall|b: int| 0 <= b < action && #[trigger] valid@[b] ==> counts@[b] <= best,
            forall|i: int|
                0 <= i < leaders@.len() ==> {
                    &&& (#[trigger] leaders@[i]) < action
                    &&& valid@[leaders@[i] as int]
                    &&& counts@[leaders@[i] as int] == best
                },
            forall|i: int, j: int| 0 <= i < j < leaders@.len() ==> leaders@[i] < leaders@[j],
            forall|a: int|
                0 <= a < action && valid@[a] && counts@[a] == best ==> exists|i: int|
                    0 <= i < leaders@.len() && #[trigger] leaders@[i] == a,
        decreases 162 - action,
    {
        if valid[action] {
            let count: u32 = counts[action];
            if !found || count > best {
                found = true;
                best = count;
                leaders.clear();
                leaders.push(action);
                assert(leaders@[0] == action);
            } else if count == best {
                let ghost before: Seq<usize> = leaders@;
                leaders.push(action);
                assert forall|a: int|
                    0 <= a < action + 1 && valid@[a] && counts@[a] == best implies exists|i: int|
                    0 <= i < leaders@.len() && #[trigger] leaders@[i] == a by {
                    if a < action {
                        let i: int = choose|i: int| 0 <= i < before.len() && #[trigger] before[i] == a;
                        assert(leaders@[i] == a);
                    } else {
                        assert(leaders@[before.len() as int] == a);
                    }
                }
            }
        }
        action = action + 1;
    }
    proof {
        assert forall|a: int| is_top(valid@, counts@, a) implies exists|i: int|
            0 <= i < leaders@.len() && #[trigger] leaders@[i] == a by {
            assert(valid@[a]);
            if found {
                let l: int = leaders@[0] as int;
                assert(valid@[l]);
                assert(counts@[l] <= counts@[a]);
            }
        }
        if leaders@.len() > 0 {
            assert(valid@[leaders@[0] as int]);
        }
    }
    leaders
}

/// The action that a search plays when it plays its best, given the legal
/// actions of the highest count and a draw among them.
pub fn pick_leader(counts: &Vec<u32>, leaders: &Vec<usize>, draw: usize) -> (action: usize)
    requires
        counts@.len() == 162,
        forall|i: int| 0 <= i < leaders@.len() ==> #[trigger] leaders@[i] < 162,
        leaders@.len() > 0 ==> draw < leaders@.len(),
    ensures
        action == greedy_pick(counts@, leaders@, draw as int),
        action < 162,
{
    if leaders.len() == 0 {
        0
    } else if counts[leaders[0]] == 0 {
        leaders[0]
    } else {
        leaders[draw]
    }
}

} // verus!
