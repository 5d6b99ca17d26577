//! One node of the Monte Carlo search tree.  A node owns its board and,
//! once expanded, all its children; the tree is grown one expansion at a
//! time and discarded after a decision.
use vstd::prelude::*;

use std::time::Duration;

use crate::bits::lemma_pop_below_bound;
use crate::bits::lemma_popcount_full;
use crate::clock::SearchClock;
use crate::game::action::Action;
use crate::game::board::apply_action_spec;
use crate::game::board::board_wf;
use crate::game::board::child_boards;
use crate::game::board::legal_action;
use crate::game::board::occupied;
use crate::game::board::lemma_reachable_extend;
use crate::game::board::outcome_spec;
use crate::game::board::reachable;
use crate::game::board::stones;
use crate::game::board::Board;
use crate::game::outcome::Outcome;
use crate::mcts::win_stats::ratio_micro;
use crate::mcts::win_stats::stats_after;
use crate::mcts::win_stats::stats_wf;
use crate::mcts::win_stats::WinStats;
use crate::mcts::win_stats::GAMES_LIMIT;
use crate::alpha_beta::search::lemma_child_boards_nonempty;
use crate::alpha_beta::search::lemma_child_boards_wf;
use crate::rng::random_below;

verus! {

/// A search-tree node: absent children mean the node was never expanded;
/// present children hold every position one move away.
#[derive(Debug)]
pub struct TreeNode {
    pub state: Board,
    pub children: Option<Vec<TreeNode>>,
    pub win_stats: WinStats,
}

/// The tree invariant: boards are well-formed; an expanded node is
/// non-terminal, lists at least one child, and each child's board is one
/// legal move away with one more stone and no more games than its parent.
pub open spec fn tree_wf(n: TreeNode) -> bool
    decreases 37 - stones(n.state),
{
    &&& board_wf(n.state)
    &&& 0 <= stones(n.state) <= 36
    &&& stats_wf(n.win_stats)
    &&& match n.children {
        None => true,
        Some(cs) => {
            &&& outcome_spec(n.state) is None
            &&& n.win_stats.games_played >= 1
            &&& cs.len() >= 1
            &&& forall|i: int|
                0 <= i < cs.len() ==> (child_boards(n.state).contains(
                    (#[trigger] cs[i]).state,
                ) && stones(cs[i].state) == stones(n.state) + 1
                    && cs[i].win_stats.games_played <= n.win_stats.games_played && tree_wf(cs[i]))
        },
    }
}

/// True when `cs` lists one fresh, unexpanded, unvisited node for each
/// legal child of `b`, in enumeration order.
pub open spec fn fresh_children_of(b: Board, cs: Seq<TreeNode>) -> bool {
    &&& cs.len() == child_boards(b).len()
    &&& forall|j: int|
        0 <= j < cs.len() ==> (#[trigger] cs[j]).state == child_boards(b)[j] && cs[j].children
            is None && cs[j].win_stats == (WinStats {
            player1_wins: 0,
            player2_wins: 0,
            games_played: 0,
        })
}

/// True when the two listings hold the same boards in the same places.
pub open spec fn same_child_states(a: Seq<TreeNode>, b: Seq<TreeNode>) -> bool {
    a.len() == b.len() && (forall|j: int| 0 <= j < a.len() ==> (#[trigger] a[j]).state == b[j].state)
}

impl TreeNode {
    /// A fresh, unexpanded node for `state`.
    pub fn new(state: Board) -> (r: TreeNode)
        ensures
            r.state == state,
            r.children is None,
            r.win_stats == (WinStats { player1_wins: 0, player2_wins: 0, games_played: 0 }),
            board_wf(state) ==> tree_wf(r),
    {
        let r = TreeNode { state, children: None, win_stats: WinStats::new() };
        proof {
            lemma_pop_below_bound(occupied(state), 36);
        }
        r
    }

    /// Grows the tree by one node: descends along the children with the
    /// best upper confidence bound (with a little random tie-breaking),
    /// expands the first unexpanded non-terminal node it reaches, plays
    /// one random rollout there, and records the outcome in every node on
    /// the path.  A terminal unexpanded node just reports its outcome.
    pub fn expand(&mut self) -> (r: Outcome)
        requires
            tree_wf(*old(self)),
            old(self).win_stats.games_played < GAMES_LIMIT,
        ensures
            tree_wf(*final(self)),
            final(self).state == old(self).state,
            final(self).win_stats == stats_after(old(self).win_stats, r),
            (old(self).children is None && outcome_spec(old(self).state) is Some)
                ==> (final(self).children == old(self).children && Some(r) == outcome_spec(
                old(self).state,
            )),
            !(old(self).children is None && outcome_spec(old(self).state) is Some)
                ==> final(self).children is Some,
            // The one expansion a node undergoes materializes every legal
            // child, fresh and unexpanded, in enumeration order.
            (old(self).children is None && outcome_spec(old(self).state) is None)
                ==> (final(self).children matches Some(cs) && fresh_children_of(
                old(self).state,
                cs@,
            )),
            // Descending into an already-expanded node keeps the child
            // listing: same length, same boards in the same places.
            old(self).children is Some ==> (final(self).children matches Some(cs)
                && same_child_states(old(self).children->Some_0@, cs@)),
        decreases 37 - stones(self.state),
    {
        let parent_games = self.win_stats.games_played;
        let player = self.state.turn();
        let winner: Outcome;
        if self.children.is_some() {
            let sel = self.select_child(player, parent_games);
            let ghost old_cs = self.children->Some_0@;
            let winner_sub: Outcome;
            match &mut self.children {
                Some(children) => {
                    proof {
                        assert(child_boards(old(self).state).contains(old_cs[sel as int].state)
                            && tree_wf(old_cs[sel as int]) && old_cs[sel as int].win_stats.games_played
                            <= old(self).win_stats.games_played);
                    }
                    winner_sub = children[sel].expand();
                },
                None => {
                    winner_sub = vstd::pervasive::unreached();
                },
            }
            proof {
                let cs = self.children->Some_0@;
                assert(cs == old_cs.update(sel as int, cs[sel as int]));
                assert forall|i: int| 0 <= i < cs.len() implies (child_boards(
                    self.state,
                ).contains((#[trigger] cs[i]).state) && cs[i].state == old_cs[i].state && stones(
                    cs[i].state,
                ) == stones(self.state) + 1 && cs[i].win_stats.games_played
                    <= self.win_stats.games_played + 1 && tree_wf(cs[i])) by {
                    if i != sel as int {
                        assert(cs[i] == old_cs[i]);
                    }
                }
            }
            winner = winner_sub;
        } else {
            let outcome_opt = self.state.outcome();
            if let Some(outcome) = outcome_opt {
                // The leaf itself lies on the backpropagation path: record
                // its own outcome before reporting it upward.
                self.win_stats.update_score(outcome);
                return outcome;
            }
            proof {
                crate::bits::lemma_bit_basics(self.state.player1, self.state.player2, 0, 0);
                lemma_popcount_full(occupied(self.state), 0);
                lemma_child_boards_wf(self.state);
                lemma_child_boards_nonempty(self.state);
            }
            let kids = self.state.children(false);
            let mut nodes: Vec<TreeNode> = Vec::new();
            let mut k: usize = 0;
            while k < kids.len()
                invariant
                    kids@ == child_boards(self.state),
                    board_wf(self.state),
                    k <= kids@.len(),
                    nodes@.len() == k,
                    forall|j: int|
                        0 <= j < child_boards(self.state).len() ==> board_wf(
                            #[trigger] child_boards(self.state)[j],
                        ) && stones(child_boards(self.state)[j]) == stones(self.state) + 1,
                    forall|j: int|
                        0 <= j < k ==> (#[trigger] nodes@[j]).state == kids@[j] && nodes@[j].children
                            is None && nodes@[j].win_stats == (WinStats {
                            player1_wins: 0,
                            player2_wins: 0,
                            games_played: 0,
                        }) && tree_wf(nodes@[j]),
                decreases kids@.len() - k,
            {
                nodes.push(TreeNode::new(kids[k]));
                k = k + 1;
            }
            self.children = Some(nodes);
            winner = self.simulate();
        }
        self.win_stats.update_score(winner);
        proof {
            lemma_pop_below_bound(occupied(self.state), 36);
        }
        winner
    }

    /// Picks the child with the greatest upper confidence bound for the
    /// mover, adding a grain of random jitter to break ties.
    fn select_child(&self, player: crate::game::player::Player, parent_games: u64) -> (r: usize)
        requires
            tree_wf(*self),
            self.children is Some,
            1 <= parent_games <= GAMES_LIMIT,
        ensures
            r < self.children->Some_0@.len(),
    {
        let children = self.children.as_ref().unwrap();
        let mut best: usize = 0;
        let mut best_key: u64 = 0;
        let mut j: usize = 0;
        while j < children.len()
            invariant
                tree_wf(*self),
                self.children is Some,
                children == self.children->Some_0,
                children@.len() >= 1,
                1 <= parent_games <= GAMES_LIMIT,
                j <= children@.len(),
                best < children@.len() || (best == 0 && j == 0),
            decreases children@.len() - j,
        {
            proof {
                assert(child_boards(self.state).contains(children@[j as int].state) && tree_wf(
                    children@[j as int],
                ) && children@[j as int].win_stats.games_played
                    <= self.win_stats.games_played);
            }
            let key = children[j].win_stats.upper_confidence_bound(player, parent_games) + (
            random_below(100) as u64);
            if j == 0 || key > best_key {
                best = j;
                best_key = key;
            }
            j = j + 1;
        }
        best
    }

    /// Plays the position out with uniformly random moves until the game
    /// ends, and returns that outcome.  A terminal position returns its
    /// own outcome.
    pub fn simulate(&self) -> (r: Outcome)
        requires
            board_wf(self.state),
            stones(self.state) <= 36,
        ensures
            outcome_spec(self.state) matches Some(o) ==> r == o,
            exists|t: Board|
                #[trigger] reachable(self.state, t) && outcome_spec(t) == Some(r),
    {
        let mut state = self.state;
        let mut out = state.outcome();
        while out.is_none()
            invariant
                board_wf(state),
                stones(state) <= 36,
                out == outcome_spec(state),
                reachable(self.state, state),
                outcome_spec(self.state) matches Some(o) ==> out == Some(o),
            decreases 37 - stones(state),
        {
            proof {
                crate::bits::lemma_bit_basics(state.player1, state.player2, 0, 0);
                lemma_pop_below_bound(occupied(state), 36);
                lemma_popcount_full(occupied(state), 0);
                lemma_child_boards_wf(state);
                lemma_child_boards_nonempty(state);
            }
            let kids = state.children(false);
            let pick = random_below(kids.len() as u64) as usize;
            let ghost previous = state;
            state = kids[pick];
            proof {
                lemma_reachable_extend(self.state, previous, state);
            }
            out = state.outcome();
        }
        proof {
            assert(reachable(self.state, state) && outcome_spec(state) == out);
        }
        match out {
            Some(o) => o,
            None => vstd::pervasive::unreached(),
        }
    }

    /// Expands once, then keeps expanding until the time budget runs out
    /// (or the statistics would overflow their scale): the deadline is
    /// polled only between whole expansions, so a non-terminal root always
    /// comes back expanded with at least one game recorded, ready for
    /// `best_move`.  A terminal root is left alone.
    pub fn search(&mut self, time_limit: Duration)
        requires
            tree_wf(*old(self)),
            old(self).win_stats.games_played < GAMES_LIMIT,
        ensures
            tree_wf(*final(self)),
            final(self).state == old(self).state,
            outcome_spec(old(self).state) is None ==> (final(self).children is Some
                && final(self).win_stats.games_played >= 1),
            outcome_spec(old(self).state) is Some ==> *final(self) == *old(self),
    {
        let outcome_opt = self.state.outcome();
        if outcome_opt.is_some() {
            return ;
        }
        let ms = time_limit.as_millis();
        let budget: u64 = if ms > 0xFFFF_FFFF_FFFF_FFFF {
            0xFFFF_FFFF_FFFF_FFFF
        } else {
            ms as u64
        };
        let clock = SearchClock::started(budget);
        let _ = self.expand();
        while self.win_stats.games_played < GAMES_LIMIT && !clock.expired()
            invariant
                tree_wf(*self),
                self.state == old(self).state,
                outcome_spec(self.state) is None,
                self.children is Some,
                self.win_stats.games_played >= 1,
            decreases GAMES_LIMIT - self.win_stats.games_played,
        {
            let _ = self.expand();
        }
    }

    /// The best move from the root, by pure exploitation: the action
    /// leading to the child with the greatest expected win ratio for the
    /// mover; among equals, the last one listed.
    pub fn best_move(&self) -> (r: Action)
        requires
            tree_wf(*self),
            self.children is Some,
        ensures
            legal_action(self.state, r),
            exists|i: int|
                0 <= i < self.children->Some_0@.len() && apply_action_spec(self.state, r) == (
                #[trigger] self.children->Some_0@[i]).state && (forall|j: int|
                    0 <= j < self.children->Some_0@.len() ==> ratio_micro(
                        (#[trigger] self.children->Some_0@[j]).win_stats,
                        crate::game::board::turn_spec(self.state),
                    ) <= ratio_micro(self.children->Some_0@[i].win_stats, crate::game::board::turn_spec(self.state))),
    {
        let player = self.state.turn();
        let children = self.children.as_ref().unwrap();
        let mut best: usize = 0;
        proof {
            assert(tree_wf(children@[0]));
        }
        let mut best_ratio: u64 = children[0].win_stats.expected_win_ratio(player);
        let mut j: usize = 1;
        while j < children.len()
            invariant
                tree_wf(*self),
                self.children is Some,
                children == self.children->Some_0,
                children@.len() >= 1,
                1 <= j <= children@.len(),
                best < j,
                best_ratio as int == ratio_micro(children@[best as int].win_stats, crate::game::board::turn_spec(self.state)),
                player == crate::game::board::turn_spec(self.state),
                forall|m: int|
                    0 <= m < j ==> ratio_micro(
                        (#[trigger] children@[m]).win_stats,
                        crate::game::board::turn_spec(self.state),
                    ) <= best_ratio as int,
            decreases children@.len() - j,
        {
            proof {
                assert(tree_wf(children@[j as int]));
            }
            let ratio = children[j].win_stats.expected_win_ratio(player);
            if ratio >= best_ratio {
                best = j;
                best_ratio = ratio;
            }
            j = j + 1;
        }
        proof {
            assert(child_boards(self.state).contains(children@[best as int].state));
        }
        let act = self.state.action_to(children[best].state);
        proof {
            let i = best as int;
            assert(0 <= i < self.children->Some_0@.len() && apply_action_spec(self.state, act)
                == self.children->Some_0@[i].state && (forall|j: int|
                0 <= j < self.children->Some_0@.len() ==> ratio_micro(
                    (#[trigger] self.children->Some_0@[j]).win_stats,
                    crate::game::board::turn_spec(self.state),
                ) <= ratio_micro(
                    self.children->Some_0@[i].win_stats,
                    crate::game::board::turn_spec(self.state),
                )));
        }
        act
    }
}

} // verus!
