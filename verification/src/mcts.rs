//! The search driver.
//!
//! A search for one position is a number of simulations. Each walks from
//! the root down the tree of known boards until it comes to a board that
//! ends the game or is not yet in the tree; the tree is then extended by
//! that board and every board on the way is credited with one visit.
//!
//! Two things are not done here. Judging a board is the evaluator's work,
//! and ranking the edges of a node is arithmetic on the evaluator's own
//! numbers. So a simulation proceeds in steps: [`SantoriniMcts::advance`]
//! says what is needed next, and the caller comes back with it, to
//! [`SantoriniMcts::descend`] with ranks or to [`SantoriniMcts::expand`]
//! with a judgement. Everything that is decided on the way is decided
//! here.

use vstd::prelude::*;
use crate::board::{token_round_trip, BoardState, MoveError, Position};
use crate::host::mask_bytes;
use crate::laws::apply_keeps_flippable;
use crate::node::{is_top, pick_leader, tied_leaders, visit_keeps_counts, NodeView, TreeNode};
use crate::rng::{draw_below, seeded, seeded_generator};
use crate::table::{kept_since, TranspositionTable};

verus! {

/// Version tag of a [`RootSummary`].
pub const SEARCH_RESULT_VERSION: u8 = 1;

/// Why a search stopped.
#[derive(Clone, Copy, Debug, PartialEq, Eq, Structural)]
pub enum SearchError {
    /// The state token does not have 75 entries.
    StateLength,
    /// The evaluator returned fewer than 162 policy entries.
    Predictor,
    /// A node that the search relies on is not in the tree.
    MissingNode,
    /// The selected action could not be applied to the board.
    Move(MoveError),
}

/// The settings of a search that bear on what the driver decides.
#[derive(Clone, Copy, Debug)]
pub struct MctsConfig {
    /// Simulations of a full search.
    pub num_simulations: u32,
    /// What the number of simulations is divided by in a partial search.
    pub partial_divisor: u32,
    /// Whether noise is mixed into the priors of the root.
    pub dirichlet_noise: bool,
    /// Whether forced playouts are in use.
    pub forced_playouts: bool,
    /// Whether the tree is left to grow without cleanups.
    pub no_mem_optim: bool,
    /// Rounds between two cleanups of the tree.
    pub cleanup_interval: u16,
    /// Rounds of history that a cleanup keeps.
    pub retain_rounds: u16,
}

impl Default for MctsConfig {
    fn default() -> (config: MctsConfig)
        ensures
            config.num_simulations == 128,
            config.partial_divisor == 4,
            !config.dirichlet_noise,
            !config.forced_playouts,
            !config.no_mem_optim,
            config.cleanup_interval == 20,
            config.retain_rounds == 5,
    {
        MctsConfig {
            num_simulations: 128,
            partial_divisor: 4,
            dirichlet_noise: false,
            forced_playouts: false,
            no_mem_optim: false,
            cleanup_interval: 20,
            retain_rounds: 5,
        }
    }
}

/// The number of simulations of a search: all of them for a full search,
/// the configured fraction and at least one for a partial search.
pub open spec fn budget_of(config: MctsConfig, full: bool) -> int {
    if full {
        config.num_simulations as int
    } else {
        let divisor: int = if config.partial_divisor < 1 {
            1
        } else {
            config.partial_divisor as int
        };
        if config.num_simulations as int / divisor < 1 {
            1
        } else {
            config.num_simulations as int / divisor
        }
    }
}

/// What is settled before the first simulation of a search.
#[derive(Clone, Copy, Debug)]
pub struct SearchPlan {
    /// The board to search from, as the player to act sees it.
    pub root: BoardState,
    /// Whether this is a full search.
    pub full_search: bool,
    /// The number of simulations.
    pub budget: u32,
    /// Whether forced playouts are active in this search.
    pub forced_playouts: bool,
    /// Whether noise is mixed in at the root in the first simulation.
    pub noise: bool,
}

/// Settles a search of the position `board_state` for `player`.
///
/// The search is full where `force_full` is set or, failing that, where
/// the draw against the configured probability came out in favour
/// (`drew_full`). A token of the wrong length is refused.
pub fn begin_search(
    config: &MctsConfig,
    board_state: &[i8],
    player: u8,
    force_full: bool,
    drew_full: bool,
) -> (outcome: Result<SearchPlan, SearchError>)
    requires
        board_state@.len() == 75 ==> Position::decode(board_state@).flippable(),
    ensures
        match outcome {
            Ok(plan) => {
                &&& board_state@.len() == 75
                &&& plan.root@ == Position::decode(board_state@).canonical(player as int)
                &&& plan.root@.flippable()
                &&& plan.root@.round <= 127
                &&& plan.full_search == (force_full || drew_full)
                &&& plan.budget == budget_of(*config, plan.full_search)
                &&& plan.forced_playouts == (plan.full_search && config.forced_playouts)
                &&& plan.noise == (plan.full_search && config.dirichlet_noise)
            },
            Err(reason) => reason == SearchError::StateLength && board_state@.len() != 75,
        },
{
    if board_state.len() != 75 {
        return Err(SearchError::StateLength);
    }
    let board: BoardState = BoardState::from_vec(board_state);
    let root: BoardState = board.canonicalised(player as usize);
    proof {
        crate::board::canonical_is_involution(board@, player as int);
    }
    let full_search: bool = force_full || drew_full;
    let budget: u32 = if full_search {
        config.num_simulations
    } else {
        let divisor: u32 = if config.partial_divisor < 1 {
            1
        } else {
            config.partial_divisor
        };
        let share: u32 = config.num_simulations / divisor;
        if share < 1 {
            1
        } else {
            share
        }
    };
    Ok(
        SearchPlan {
            root: root,
            full_search: full_search,
            budget: budget,
            forced_playouts: full_search && config.forced_playouts,
            noise: full_search && config.dirichlet_noise,
        },
    )
}

/// One step of a walk down the tree: the node that was left, the action
/// that was taken, and whether the side to act changed with it.
#[derive(Clone, Copy, Debug)]
pub struct Crumb {
    /// The token of the board that was left.
    pub key: [i8; 75],
    /// The action that was taken.
    pub action: usize,
    /// Whether the opponent acts next, so that the board was flipped.
    pub flipped: bool,
}

/// A simulation under way.
pub struct Simulation {
    /// The board that the walk has come to, as the player to act sees it.
    pub board: BoardState,
    /// The steps taken from the root, in order.
    pub path: Vec<Crumb>,
    /// Whether the player to act on `board` is the opponent of the player
    /// to act at the root.
    pub root_flipped: bool,
    /// The number of this simulation within its search, from 1.
    pub iteration: u32,
    /// Whether noise is to be mixed in if the root is in the tree.
    pub noise: bool,
    /// Whether forced playouts are active.
    pub forced_playouts: bool,
}

impl Simulation {
    /// What holds of a simulation between two steps.
    pub open spec fn inv(&self) -> bool {
        &&& self.board@.flippable()
        &&& self.board@.round <= 127
        &&& forall|i: int| 0 <= i < self.path@.len() ==> (#[trigger] self.path@[i]).action < 162
    }

    /// The token of the board that the walk has come to.
    pub open spec fn key(&self) -> Seq<i8> {
        self.board@.encode()
    }

    /// A simulation at the root of `plan`.
    pub fn start(plan: &SearchPlan, iteration: u32) -> (sim: Simulation)
        requires
            plan.root@.flippable(),
            plan.root@.round <= 127,
        ensures
            sim.inv(),
            sim.board == plan.root,
            sim.path@.len() == 0,
            !sim.root_flipped,
            sim.iteration == iteration,
            sim.noise == (plan.noise && iteration == 1),
            sim.forced_playouts == plan.forced_playouts,
    {
        Simulation {
            board: plan.root,
            path: Vec::new(),
            root_flipped: false,
            iteration: iteration,
            noise: plan.noise && iteration == 1,
            forced_playouts: plan.forced_playouts,
        }
    }
}

/// What one step of a walk is credited with when a simulation ends.
#[derive(Clone, Copy, Debug)]
pub struct Backup {
    /// The token of the node that is credited.
    pub key: [i8; 75],
    /// The action that was taken from it.
    pub action: usize,
    /// Whether the value of the simulation reaches this node negated:
    /// whether an odd number of the steps from here on changed the side
    /// to act.
    pub negated: bool,
    /// Whether the node is in the tree. The counts below are 0 where it is
    /// not.
    pub found: bool,
    /// The visits of the action, this one included.
    pub edge_visits: u32,
    /// The visits of the node, this one included.
    pub total_visits: u32,
}

/// What a simulation needs next.
pub enum Step {
    /// The walk stands on a node that is in the tree and does not end the
    /// game. The caller ranks its actions and calls
    /// [`SantoriniMcts::descend`], after mixing noise into the priors of
    /// the node where `noise` is set.
    Select { noise: bool },
    /// The walk stands on a board that is not in the tree and does not end
    /// the game. The caller has the evaluator judge the board, given as its
    /// token and its legality mask, and calls [`SantoriniMcts::expand`].
    Evaluate { state: Vec<i8>, mask: Vec<u8> },
    /// The walk stands on a board that ends the game with `value`. The
    /// board is in the tree now, the steps of the walk have been credited,
    /// and the simulation is over.
    Finished { value: i8, backups: Vec<Backup> },
}

/// What a search returns of its root.
pub struct RootSummary {
    /// The version of this summary's layout.
    pub version: u8,
    /// The weight of each action in the root distribution, before any
    /// temperature is applied: the root counts, or, where the search was
    /// asked for its best action, 1 for that action and 0 for all others.
    pub weights: Vec<u32>,
    /// The visits of each action, 0 for an illegal one.
    pub visits: Vec<u32>,
    /// Whether the search was a full one.
    pub full_search: bool,
}

/// The counts of a node without visits.
pub open spec fn zero_visits() -> Seq<u32> {
    Seq::new(162, |a: int| 0u32)
}

/// The node that a board enters the tree with.
pub open spec fn leaf_node<S>(position: Position, values: Option<S>) -> NodeView<S> {
    NodeView {
        valid: position.mask(0),
        edge_visits: zero_visits(),
        total_visits: 0,
        terminal_value: position.result(0),
        round: position.round,
        values: values,
    }
}

/// Whether `node` is a node of the board with token `key`: its mask, its
/// terminal value and its round are those of the board with the player to
/// act as player 0, its counts agree, and it carries estimates exactly
/// where the board does not end the game.
pub open spec fn node_fits<S>(key: Seq<i8>, node: NodeView<S>) -> bool {
    let position: Position = Position::decode(key);
    &&& node.consistent()
    &&& node.valid == position.mask(0)
    &&& node.terminal_value == position.result(0)
    &&& node.round == position.round
    &&& node.terminal_value is Some <==> node.values is None
}

/// The tree after the node that `crumb` names is credited with a visit.
pub open spec fn visited<S>(tree: Map<Seq<i8>, NodeView<S>>, crumb: Crumb) -> Map<
    Seq<i8>,
    NodeView<S>,
> {
    if tree.dom().contains(crumb.key@) {
        tree.insert(crumb.key@, tree[crumb.key@].recorded(crumb.action as int))
    } else {
        tree
    }
}

/// The record of crediting the node that `crumb` names, read from the tree
/// after the visit.
pub open spec fn backup_of<S>(
    tree: Map<Seq<i8>, NodeView<S>>,
    crumb: Crumb,
    negated: bool,
) -> Backup {
    if tree.dom().contains(crumb.key@) {
        Backup {
            key: crumb.key,
            action: crumb.action,
            negated: negated,
            found: true,
            edge_visits: tree[crumb.key@].edge_visits[crumb.action as int],
            total_visits: tree[crumb.key@].total_visits,
        }
    } else {
        Backup {
            key: crumb.key,
            action: crumb.action,
            negated: negated,
            found: false,
            edge_visits: 0,
            total_visits: 0,
        }
    }
}

/// Backpropagation: the steps of `path` are credited from the last to the
/// first. The value changes sign whenever it crosses a step that changed
/// the side to act, so that every node receives it as the player to act
/// there sees it; `negated` says whether it arrives negated at the end of
/// the path. The result is the tree afterwards and the records of the
/// visits, in the order in which they were made.
pub open spec fn propagate<S>(
    tree: Map<Seq<i8>, NodeView<S>>,
    path: Seq<Crumb>,
    negated: bool,
) -> (Map<Seq<i8>, NodeView<S>>, Seq<Backup>)
    decreases path.len(),
{
    if path.len() == 0 {
        (tree, Seq::<Backup>::empty())
    } else {
        let crumb: Crumb = path.last();
        let sign: bool = negated != crumb.flipped;
        let after: Map<Seq<i8>, NodeView<S>> = visited(tree, crumb);
        let rest: (Map<Seq<i8>, NodeView<S>>, Seq<Backup>) = propagate(
            after,
            path.drop_last(),
            sign,
        );
        (rest.0, seq![backup_of(after, crumb, sign)] + rest.1)
    }
}

/// A sequence with 1 at `pick` and 0 everywhere else.
pub open spec fn one_hot(pick: int) -> Seq<u32> {
    Seq::new(
        162,
        |a: int|
            if a == pick {
                1u32
            } else {
                0u32
            },
    )
}

/// The search engine: its settings, its random source and its tree.
pub struct SantoriniMcts<S> {
    /// The settings.
    pub config: MctsConfig,
    /// The random source. The caller draws from it what is drawn in its
    /// own arithmetic.
    pub rng: rand::rngs::SmallRng,
    nodes: TranspositionTable<S>,
    last_cleanup_round: u16,
}

impl<S> SantoriniMcts<S> {
    /// The tree, as a map from tokens to nodes.
    pub closed spec fn tree(&self) -> Map<Seq<i8>, NodeView<S>> {
        self.nodes@
    }

    /// The settings.
    pub closed spec fn settings(&self) -> MctsConfig {
        self.config
    }

    /// The random source.
    pub closed spec fn source(&self) -> rand::rngs::SmallRng {
        self.rng
    }

    /// The round of the last cleanup.
    pub closed spec fn cleaned_at(&self) -> nat {
        self.last_cleanup_round as nat
    }

    /// No token is filed twice.
    pub closed spec fn filed_once(&self) -> bool {
        self.nodes.wf()
    }

    /// What holds of an engine between two calls: every node of the tree
    /// is a node of the board it is filed under.
    pub open spec fn wf(&self) -> bool {
        &&& self.filed_once()
        &&& forall|key: Seq<i8>| #[trigger]
            self.tree().dom().contains(key) ==> node_fits(key, self.tree()[key])
    }

    /// An engine with an empty tree.
    pub fn new(config: MctsConfig, rng: rand::rngs::SmallRng) -> (engine: SantoriniMcts<S>)
        ensures
            engine.wf(),
            engine.settings() == config,
            engine.tree() == Map::<Seq<i8>, NodeView<S>>::empty(),
            engine.cleaned_at() == 0,
    {
        SantoriniMcts {
            config: config,
            rng: rng,
            nodes: TranspositionTable::new(),
            last_cleanup_round: 0,
        }
    }

    /// The settings that an engine has where none are given.
    pub fn default_config() -> (config: MctsConfig)
        ensures
            config.num_simulations == 128,
            config.partial_divisor == 4,
            !config.dirichlet_noise,
            !config.forced_playouts,
            !config.no_mem_optim,
            config.cleanup_interval == 20,
            config.retain_rounds == 5,
    {
        MctsConfig::default()
    }

    /// Replaces the random source by the generator that is made of `seed`,
    /// whatever the source was before: two engines that are seeded alike
    /// draw from equal sources.
    pub fn set_seed(&mut self, seed: u64)
        ensures
            final(self).source() == seeded_generator(seed),
            final(self).settings() == old(self).settings(),
            final(self).tree() == old(self).tree(),
            final(self).cleaned_at() == old(self).cleaned_at(),
            final(self).filed_once() == old(self).filed_once(),
    {
        self.rng = seeded(seed);
    }

    /// The number of nodes in the tree.
    pub fn len(&self) -> (count: usize)
        requires
            self.wf(),
        ensures
            count == self.tree().dom().len(),
    {
        proof {
            self.nodes.len_is_domain();
        }
        self.nodes.len()
    }

    /// The tokens of the boards that are in the tree, each once.
    pub fn keys(&self) -> (keys: Vec<[i8; 75]>)
        requires
            self.wf(),
        ensures
            forall|i: int| 0 <= i < keys@.len() ==> self.tree().dom().contains(#[trigger] keys@[i]@),
            forall|i: int, j: int| 0 <= i < j < keys@.len() ==> keys@[i]@ != keys@[j]@,
            forall|key: Seq<i8>|
                self.tree().dom().contains(key) ==> exists|i: int|
                    0 <= i < keys@.len() && #[trigger] keys@[i]@ == key,
    {
        self.nodes.keys()
    }

    /// The round of the last cleanup.
    pub fn last_cleanup_round(&self) -> (round: u16)
        ensures
            round == self.cleaned_at(),
    {
        self.last_cleanup_round
    }

    /// The node of the board with token `key`.
    pub fn node(&self, key: &[i8; 75]) -> (found: Option<&TreeNode<S>>)
        requires
            self.wf(),
        ensures
            match found {
                Some(node) => self.tree().dom().contains(key@) && node@ == self.tree()[key@]
                    && node_fits(key@, node@),
                None => !self.tree().dom().contains(key@),
            },
    {
        self.nodes.get(key)
    }

    /// Attaches `values` to the node of the board with token `key`, in
    /// place of what it carried. Returns whether that was done: it is not
    /// where the tree has no such node, or the node ends the game and so
    /// carries nothing.
    pub fn set_values(&mut self, key: &[i8; 75], values: S) -> (done: bool)
        requires
            old(self).wf(),
        ensures
            final(self).wf(),
            final(self).settings() == old(self).settings(),
            final(self).cleaned_at() == old(self).cleaned_at(),
            done == (old(self).tree().dom().contains(key@) && old(
                self,
            ).tree()[key@].terminal_value is None),
            done ==> final(self).tree() == old(self).tree().insert(
                key@,
                old(self).tree()[key@].with_values(Some(values)),
            ),
            !done ==> final(self).tree() == old(self).tree(),
    {
        let open: bool = match self.nodes.get(key) {
            Some(node) => node.terminal_value.is_none(),
            None => false,
        };
        if open {
            self.nodes.set_values(key, values)
        } else {
            false
        }
    }

    /// Credits the steps of `path`, from the last to the first, with one
    /// visit each, and returns the records of the visits in that order.
    pub fn backpropagate(&mut self, path: &Vec<Crumb>) -> (backups: Vec<Backup>)
        requires
            old(self).wf(),
            forall|i: int| 0 <= i < path@.len() ==> (#[trigger] path@[i]).action < 162,
        ensures
            final(self).wf(),
            final(self).settings() == old(self).settings(),
            final(self).cleaned_at() == old(self).cleaned_at(),
            final(self).tree() == propagate(old(self).tree(), path@, false).0,
            backups@ == propagate(old(self).tree(), path@, false).1,
            backups@.len() == path@.len(),
    {
        let ghost start: Map<Seq<i8>, NodeView<S>> = self.tree();
        let mut backups: Vec<Backup> = Vec::new();
        let mut negated: bool = false;
        let mut remaining: usize = path.len();
        proof {
            assert(path@.take(remaining as int) =~= path@);
            assert(backups@ + propagate(self.tree(), path@, false).1 =~= propagate(
                start,
                path@,
                false,
            ).1);
        }
        while remaining > 0
            invariant
                self.wf(),
                self.settings() == old(self).settings(),
                self.cleaned_at() == old(self).cleaned_at(),
                remaining <= path@.len(),
                backups@.len() + remaining == path@.len(),
                forall|i: int| 0 <= i < path@.len() ==> (#[trigger] path@[i]).action < 162,
                propagate(start, path@, false).0 == propagate(
                    self.tree(),
                    path@.take(remaining as int),
                    negated,
                ).0,
                propagate(start, path@, false).1 == backups@ + propagate(
                    self.tree(),
                    path@.take(remaining as int),
                    negated,
                ).1,
            decreases remaining,
        {
            let ghost before: Map<Seq<i8>, NodeView<S>> = self.tree();
            let ghost before_backups: Seq<Backup> = backups@;
            let ghost prefix: Seq<Crumb> = path@.take(remaining as int);
            let ghost before_sign: bool = negated;
            remaining = remaining - 1;
            let crumb: Crumb = path[remaining];
            if crumb.flipped {
                negated = !negated;
            }
            let counts: Option<(u32, u32)> = self.nodes.record_visit(&crumb.key, crumb.action);
            let backup: Backup = match counts {
                Some(c) => Backup {
                    key: crumb.key,
                    action: crumb.action,
                    negated: negated,
                    found: true,
                    edge_visits: c.0,
                    total_visits: c.1,
                },
                None => Backup {
                    key: crumb.key,
                    action: crumb.action,
                    negated: negated,
                    found: false,
                    edge_visits: 0,
                    total_visits: 0,
                },
            };
            backups.push(backup);
            proof {
                assert(prefix.last() == crumb);
                assert(prefix.drop_last() =~= path@.take(remaining as int));
                assert(self.tree() == visited(before, crumb));
                assert(backup == backup_of(self.tree(), crumb, negated));
                let rest: (Map<Seq<i8>, NodeView<S>>, Seq<Backup>) = propagate(
                    self.tree(),
                    path@.take(remaining as int),
                    negated,
                );
                assert(propagate(before, prefix, before_sign).0 == rest.0);
                assert(propagate(before, prefix, before_sign).1 == seq![backup] + rest.1);
                assert(backups@ + rest.1 =~= before_backups + (seq![backup] + rest.1));
                if before.dom().contains(crumb.key@) {
                    visit_keeps_counts(before[crumb.key@], crumb.action as int);
                }
            }
        }
        backups
    }
}

impl<S> SantoriniMcts<S> {
    /// Takes a simulation as far as it goes without the caller, and says
    /// what is needed next.
    ///
    /// On a board that ends the game the simulation is over: the board is
    /// filed in the tree, if it was not yet, and the steps of the walk are
    /// credited. On any other board nothing changes, and the step says
    /// whether the board is in the tree.
    pub fn advance(&mut self, sim: &Simulation) -> (step: Step)
        requires
            old(self).wf(),
            sim.inv(),
        ensures
            final(self).wf(),
            final(self).settings() == old(self).settings(),
            final(self).cleaned_at() == old(self).cleaned_at(),
            match step {
                Step::Select { noise } => {
                    &&& final(self).tree() == old(self).tree()
                    &&& old(self).tree().dom().contains(sim.key())
                    &&& sim.board@.result(0) is None
                    &&& noise == (sim.noise && sim.path@.len() == 0)
                },
                Step::Evaluate { state, mask } => {
                    &&& final(self).tree() == old(self).tree()
                    &&& !old(self).tree().dom().contains(sim.key())
                    &&& sim.board@.result(0) is None
                    &&& state@ == sim.key()
                    &&& mask@.len() == 162
                    &&& forall|a: int|
                        0 <= a < 162 ==> #[trigger] mask@[a] == (if sim.board@.legal(0, a) {
                            1u8
                        } else {
                            0u8
                        })
                },
                Step::Finished { value, backups } => {
                    let filed: Map<Seq<i8>, NodeView<S>> = if old(self).tree().dom().contains(
                        sim.key(),
                    ) {
                        old(self).tree()
                    } else {
                        old(self).tree().insert(sim.key(), leaf_node(sim.board@, None))
                    };
                    &&& sim.board@.result(0) == Some(value as int)
                    &&& final(self).tree() == propagate(filed, sim.path@, false).0
                    &&& backups@ == propagate(filed, sim.path@, false).1
                },
            },
    {
        let key: [i8; 75] = sim.board.key();
        proof {
            token_round_trip(sim.board@);
        }
        let known: Option<Option<i8>> = match self.nodes.get(&key) {
            Some(node) => Some(node.terminal_value),
            None => None,
        };
        proof {
            if known is Some {
                assert(self.tree().dom().contains(key@));
                assert(node_fits(key@, self.tree()[key@]));
            }
        }
        match known {
            Some(Some(value)) => {
                let backups: Vec<Backup> = self.backpropagate(&sim.path);
                Step::Finished { value: value, backups: backups }
            },
            Some(None) => Step::Select { noise: sim.noise && sim.path.len() == 0 },
            None => {
                let mut valid: [bool; 162] = [false;162];
                sim.board.valid_moves(0, &mut valid);
                match sim.board.result_value(0) {
                    Some(value) => {
                        let node: TreeNode<S> = TreeNode::terminal(valid, value, sim.board.round());
                        proof {
                            assert(node@.valid =~= sim.board@.mask(0));
                            assert(node@.edge_visits =~= zero_visits());
                            assert(node@ == leaf_node::<S>(sim.board@, None));
                        }
                        self.nodes.insert(key, node);
                        proof {
                            self.fits_after_filing(old(self), key@);
                        }
                        let backups: Vec<Backup> = self.backpropagate(&sim.path);
                        Step::Finished { value: value, backups: backups }
                    },
                    None => Step::Evaluate {
                        state: sim.board.to_vec(),
                        mask: mask_bytes(&valid),
                    },
                }
            },
        }
    }

    /// Takes one step down the tree from a node that is in it: selects an
    /// action by `scores` and `targets` (see [`TreeNode::select_action`]),
    /// applies it for the player to act, and turns the board to face the
    /// player who acts next. Returns the action.
    ///
    /// The simulation is left as it was where the tree has no node for the
    /// board, or the action cannot be applied.
    pub fn descend(
        &self,
        sim: &mut Simulation,
        scores: &[i32; 162],
        targets: &[u32; 162],
    ) -> (outcome: Result<usize, SearchError>)
        requires
            self.wf(),
            old(sim).inv(),
        ensures
            final(sim).inv(),
            final(sim).iteration == old(sim).iteration,
            final(sim).noise == old(sim).noise,
            final(sim).forced_playouts == old(sim).forced_playouts,
            match outcome {
                Ok(action) => {
                    &&& self.tree().dom().contains(old(sim).key())
                    &&& action == self.tree()[old(sim).key()].selection(
                        scores@,
                        old(sim).forced_playouts,
                        targets@,
                    )
                    &&& old(sim).board@.apply(action as int, 0) matches Ok(next)
                    &&& final(sim).board@ == next.0.canonical(next.1)
                    &&& final(sim).root_flipped == (old(sim).root_flipped != (next.1 == 1))
                    &&& final(sim).path@.len() == old(sim).path@.len() + 1
                    &&& final(sim).path@.drop_last() == old(sim).path@
                    &&& final(sim).path@.last().key@ == old(sim).key()
                    &&& final(sim).path@.last().action == action
                    &&& final(sim).path@.last().flipped == (next.1 == 1)
                },
                Err(SearchError::MissingNode) => {
                    &&& !self.tree().dom().contains(old(sim).key())
                    &&& *final(sim) == *old(sim)
                },
                Err(SearchError::Move(reason)) => {
                    &&& self.tree().dom().contains(old(sim).key())
                    &&& old(sim).board@.apply(
                        self.tree()[old(sim).key()].selection(
                            scores@,
                            old(sim).forced_playouts,
                            targets@,
                        ),
                        0,
                    ) == Err::<(Position, int), MoveError>(reason)
                    &&& *final(sim) == *old(sim)
                },
                Err(_) => false,
            },
    {
        let key: [i8; 75] = sim.board.key();
        let action: usize = match self.nodes.get(&key) {
            Some(node) => node.select_action(scores, sim.forced_playouts, targets),
            None => {
                return Err(SearchError::MissingNode);
            },
        };
        let mut board: BoardState = sim.board;
        match board.make_move(action, 0) {
            Ok(next_player) => {
                proof {
                    apply_keeps_flippable(sim.board@, 0, action as int);
                    crate::board::canonical_is_involution(board@, next_player as int);
                }
                let flipped: bool = next_player == 1;
                sim.path.push(Crumb { key: key, action: action, flipped: flipped });
                if flipped {
                    sim.root_flipped = !sim.root_flipped;
                }
                sim.board = board.canonicalised(next_player);
                proof {
                    assert(sim.path@.drop_last() =~= old(sim).path@);
                }
                Ok(action)
            },
            Err(reason) => Err(SearchError::Move(reason)),
        }
    }

    /// Files the board that a walk has come to and credits the steps of
    /// the walk. `policy_len` is the number of policy entries that the
    /// evaluator returned; with fewer than 162 the judgement is refused and
    /// the tree is left as it was. `values` is what the caller keeps of the
    /// judgement.
    ///
    /// Returns the value of the game where the board ends it (the node
    /// then carries nothing, and `values` is dropped), and the records of
    /// the visits. A node that was filed for the board before is replaced.
    pub fn expand(&mut self, sim: &Simulation, policy_len: usize, values: S) -> (outcome: Result<
        (Option<i8>, Vec<Backup>),
        SearchError,
    >)
        requires
            old(self).wf(),
            sim.inv(),
        ensures
            final(self).wf(),
            final(self).settings() == old(self).settings(),
            final(self).cleaned_at() == old(self).cleaned_at(),
            match outcome {
                Ok(done) => {
                    let filed: Map<Seq<i8>, NodeView<S>> = old(self).tree().insert(
                        sim.key(),
                        leaf_node(
                            sim.board@,
                            if sim.board@.result(0) is Some {
                                None
                            } else {
                                Some(values)
                            },
                        ),
                    );
                    &&& policy_len >= 162
                    &&& match done.0 {
                        Some(value) => sim.board@.result(0) == Some(value as int),
                        None => sim.board@.result(0) is None,
                    }
                    &&& final(self).tree() == propagate(filed, sim.path@, false).0
                    &&& done.1@ == propagate(filed, sim.path@, false).1
                },
                Err(reason) => {
                    &&& reason == SearchError::Predictor
                    &&& policy_len < 162
                    &&& final(self).tree() == old(self).tree()
                },
            },
    {
        if policy_len < 162 {
            return Err(SearchError::Predictor);
        }
        let key: [i8; 75] = sim.board.key();
        proof {
            token_round_trip(sim.board@);
        }
        let mut valid: [bool; 162] = [false;162];
        sim.board.valid_moves(0, &mut valid);
        let terminal: Option<i8> = sim.board.result_value(0);
        let node: TreeNode<S> = match terminal {
            Some(value) => TreeNode::terminal(valid, value, sim.board.round()),
            None => TreeNode::from_prediction(valid, values, sim.board.round()),
        };
        proof {
            assert(node@.valid =~= sim.board@.mask(0));
            assert(node@.edge_visits =~= zero_visits());
        }
        self.nodes.insert(key, node);
        proof {
            self.fits_after_filing(old(self), key@);
        }
        let backups: Vec<Backup> = self.backpropagate(&sim.path);
        Ok((terminal, backups))
    }

    /// Cleans the tree up if a cleanup is due at `current_round`: unless
    /// cleanups are switched off, and if more than the configured interval
    /// of rounds has passed since the last one, every node that was made
    /// more than the configured number of rounds ago is dropped.
    pub fn maybe_cleanup(&mut self, current_round: u16)
        requires
            old(self).wf(),
        ensures
            final(self).wf(),
            final(self).settings() == old(self).settings(),
            old(self).cleanup_due(current_round as nat) ==> {
                &&& final(self).tree() == kept_since(
                    old(self).tree(),
                    cleanup_threshold(old(self).settings(), current_round as nat),
                )
                &&& final(self).cleaned_at() == current_round
            },
            !old(self).cleanup_due(current_round as nat) ==> {
                &&& final(self).tree() == old(self).tree()
                &&& final(self).cleaned_at() == old(self).cleaned_at()
            },
    {
        if self.config.no_mem_optim {
            return;
        }
        if current_round as u32 <= self.last_cleanup_round as u32
            + self.config.cleanup_interval as u32 {
            return;
        }
        let threshold: u16 = if current_round >= self.config.retain_rounds {
            current_round - self.config.retain_rounds
        } else {
            0
        };
        self.nodes.retain_since(threshold);
        self.last_cleanup_round = current_round;
        proof {
            assert forall|key: Seq<i8>| #[trigger]
                self.tree().dom().contains(key) implies node_fits(key, self.tree()[key]) by {
                assert(old(self).tree().dom().contains(key));
            }
        }
    }

    /// Filing a node that fits its board keeps the tree in order.
    proof fn fits_after_filing(&self, before: &SantoriniMcts<S>, key: Seq<i8>)
        requires
            before.wf(),
            self.filed_once(),
            self.tree().dom().contains(key),
            self.tree() == before.tree().insert(key, self.tree()[key]),
            node_fits(key, self.tree()[key]),
        ensures
            self.wf(),
    {
        assert forall|other: Seq<i8>| #[trigger]
            self.tree().dom().contains(other) implies node_fits(other, self.tree()[other]) by {
            if other != key {
                assert(before.tree().dom().contains(other));
            }
        }
    }

    /// Whether a cleanup is due at `current_round`.
    pub open spec fn cleanup_due(&self, current_round: nat) -> bool {
        &&& !self.settings().no_mem_optim
        &&& current_round > self.cleaned_at() + self.settings().cleanup_interval
    }

    /// Shapes what a search returns of the root of `plan`.
    ///
    /// The weights are the root counts of the node (see
    /// [`NodeView::root_count`]; `targets` is read only where forced
    /// playouts were active). Where `greedy` is set, all weight goes to one
    /// action: a legal action whose root count no other exceeds, drawn at
    /// random among those; the first legal action where all root counts are
    /// 0; action 0 where no action is legal.
    pub fn root_distribution(
        &mut self,
        plan: &SearchPlan,
        targets: &[u32; 162],
        greedy: bool,
    ) -> (outcome: Result<RootSummary, SearchError>)
        requires
            old(self).wf(),
        ensures
            final(self).wf(),
            final(self).settings() == old(self).settings(),
            final(self).cleaned_at() == old(self).cleaned_at(),
            final(self).tree() == old(self).tree(),
            match outcome {
                Ok(summary) => {
                    let node: NodeView<S> = old(self).tree()[plan.root@.encode()];
                    &&& old(self).tree().dom().contains(plan.root@.encode())
                    &&& summary.version == 1
                    &&& summary.full_search == plan.full_search
                    &&& summary.visits@.len() == 162
                    &&& forall|a: int|
                        0 <= a < 162 ==> #[trigger] summary.visits@[a] == (if node.valid[a] {
                            node.edge_visits[a]
                        } else {
                            0u32
                        })
                    &&& summary.weights@.len() == 162
                    &&& !greedy ==> forall|a: int|
                        0 <= a < 162 ==> #[trigger] summary.weights@[a] == node.root_count(
                            plan.forced_playouts,
                            targets@,
                            a,
                        )
                    &&& greedy ==> exists|pick: int|
                        {
                            &&& 0 <= pick < 162
                            &&& summary.weights@ == one_hot(pick)
                            &&& is_greedy_choice(node, plan.forced_playouts, targets@, pick)
                        }
                },
                Err(reason) => {
                    &&& reason == SearchError::MissingNode
                    &&& !old(self).tree().dom().contains(plan.root@.encode())
                },
            },
    {
        let key: [i8; 75] = plan.root.key();
        let node: &TreeNode<S> = match self.nodes.get(&key) {
            Some(node) => node,
            None => {
                return Err(SearchError::MissingNode);
            },
        };
        let counts: Vec<u32> = node.root_counts(plan.forced_playouts, targets);
        let visits: Vec<u32> = node.legal_visits();
        if !greedy {
            return Ok(
                RootSummary {
                    version: SEARCH_RESULT_VERSION,
                    weights: counts,
                    visits: visits,
                    full_search: plan.full_search,
                },
            );
        }
        let leaders: Vec<usize> = tied_leaders(&node.valid, &counts);
        let draw: usize = if leaders.len() > 0 && counts[leaders[0]] > 0 {
            draw_below(&mut self.rng, leaders.len())
        } else {
            0
        };
        let pick: usize = pick_leader(&counts, &leaders, draw);
        let weights: Vec<u32> = one_hot_weights(pick);
        proof {
            let ghost model: NodeView<S> = old(self).tree()[plan.root@.encode()];
            if leaders@.len() > 0 {
                assert(is_top(model.valid, counts@, pick as int));
                assert(is_top(model.valid, counts@, leaders@[0] as int));
                if counts@[pick as int] == 0 {
                    assert forall|b: int| 0 <= b < pick implies !model.valid[b] by {
                        if model.valid[b] {
                            assert(is_top(model.valid, counts@, b));
                            let i: int = choose|i: int|
                                0 <= i < leaders@.len() && #[trigger] leaders@[i] == b;
                            assert(leaders@[0] <= leaders@[i]);
                        }
                    }
                }
            }
            assert(is_greedy_choice(model, plan.forced_playouts, targets@, pick as int));
        }
        Ok(
            RootSummary {
                version: SEARCH_RESULT_VERSION,
                weights: weights,
                visits: visits,
                full_search: plan.full_search,
            },
        )
    }
}

/// The round below which a cleanup at `current_round` drops nodes.
pub open spec fn cleanup_threshold(config: MctsConfig, current_round: nat) -> nat {
    if current_round >= config.retain_rounds {
        (current_round - config.retain_rounds) as nat
    } else {
        0
    }
}

/// Whether `pick` may be the action that a search plays when it plays its
/// best from `node`: where an action is legal, `pick` is a legal action
/// whose root count no other legal action exceeds, and the first legal
/// action where that count is 0; where none is legal, `pick` is 0.
pub open spec fn is_greedy_choice<S>(
    node: NodeView<S>,
    forced: bool,
    targets: Seq<u32>,
    pick: int,
) -> bool {
    if node.has_valid() {
        &&& 0 <= pick < 162
        &&& node.valid[pick]
        &&& forall|b: int|
            0 <= b < 162 && #[trigger] node.valid[b] ==> node.root_count(forced, targets, b)
                <= node.root_count(forced, targets, pick)
        &&& node.root_count(forced, targets, pick) == 0 ==> forall|b: int|
            0 <= b < pick ==> !#[trigger] node.valid[b]
    } else {
        pick == 0
    }
}

/// A vector with 1 at `pick` and 0 everywhere else.
pub fn one_hot_weights(pick: usize) -> (weights: Vec<u32>)
    ensures
        weights@ == one_hot(pick as int),
{
    let mut weights: Vec<u32> = Vec::with_capacity(162);
    let mut action: usize = 0;
    while action < 162
        invariant
            action <= 162,
            weights@.len() == action,
            forall|a: int|
                0 <= a < action ==> #[trigger] weights@[a] == (if a == pick {
                    1u32
                } else {
                    0u32
                }),
        decreases 162 - action,
    {
        weights.push(
            if action == pick {
                1
            } else {
                0
            },
        );
        action = action + 1;
    }
    assert(weights@ =~= one_hot(pick as int));
    weights
}

} // verus!
