//! Negamax with alpha-beta pruning and iterative deepening.  The searcher
//! is anytime: an armed clock can abort a pass, and the root then falls
//! back to the best action of the last completed pass.  With the clock
//! unarmed and the cache's read path off, `negamax` provably computes one
//! fixed function of its arguments: the search is deterministic.
use vstd::prelude::*;

use std::time::Duration;

use crate::alpha_beta::eval::eval;
use crate::alpha_beta::eval::eval_spec;
use crate::alpha_beta::transposition_table::TranspositionTable;
use crate::bits::bit;
use crate::bits::in_board;
use crate::bits::lemma_bit_basics;
use crate::bits::lemma_pop_below_bound;
use crate::bits::lemma_pop_free;
use crate::bits::lemma_popcount_full;
use crate::clock::SearchClock;
use crate::game::action::Action;
use crate::game::board::board_wf;
use crate::game::board::child_at;
use crate::game::board::child_boards;
use crate::game::board::child_upto;
use crate::game::board::empty_board;
use crate::game::board::free_spec;
use crate::game::board::legal_action;
use crate::game::board::lemma_child_upto_contains;
use crate::game::board::lemma_child_wf;
use crate::game::board::occupied;
use crate::game::board::outcome_spec;
use crate::game::board::stones;
use crate::game::board::turn_spec;
use crate::game::board::Board;
use crate::game::outcome::Outcome;
use crate::game::player::Player;
use crate::game::swap::all_swaps;
use crate::game::swap::Swap;
use crate::rng::random_below;

verus! {

/// The value of a finished game, from the mover's perspective: a win is
/// worth more the fewer stones it took, a draw is worth nothing.
pub open spec fn terminal_value(b: Board, o: Outcome) -> int {
    let ws = 1_000_000 - stones(b);
    let mover1 = turn_spec(b) == Player::Player1;
    match o {
        Outcome::Player1Win => if mover1 {
            ws
        } else {
            -ws
        },
        Outcome::Player2Win => if mover1 {
            -ws
        } else {
            ws
        },
        Outcome::Draw => 0,
    }
}

/// The value negamax computes with the cache's read path off: terminal
/// positions score exactly, depth zero falls back to the static
/// evaluation, and otherwise the window narrows to the best score still
/// reachable here before the children are searched in order.
pub open spec fn negamax_value(b: Board, depth: u32, alpha: int, beta: int) -> int
    decreases depth, 0int, 0int,
{
    match outcome_spec(b) {
        Some(o) => terminal_value(b, o),
        None => {
            if depth == 0 {
                eval_spec(b)
            } else {
                let max_score = 1_000_000 - stones(b) - 1;
                if beta > max_score && alpha >= max_score {
                    max_score
                } else {
                    let beta2 = if beta > max_score {
                        max_score
                    } else {
                        beta
                    };
                    negamax_children_value(child_boards(b), 0, (depth - 1) as u32, alpha, beta2)
                }
            }
        },
    }
}

/// The children loop: each child is searched with the negated, swapped
/// window; a score at or above beta is returned at once, anything else
/// raises alpha.  Exhausting the children yields the raised alpha.
pub open spec fn negamax_children_value(
    cs: Seq<Board>,
    i: int,
    depth: u32,
    alpha: int,
    beta: int,
) -> int
    decreases depth, cs.len() - i, 1int,
{
    if i < 0 || i >= cs.len() {
        alpha
    } else {
        let score = -negamax_value(cs[i], depth, -beta, -alpha);
        if score >= beta {
            score
        } else {
            let alpha2 = if score > alpha {
                score
            } else {
                alpha
            };
            negamax_children_value(cs, i + 1, depth, alpha2, beta)
        }
    }
}

/// Every child of a well-formed board is well-formed and one stone fuller.
pub proof fn lemma_child_boards_wf(b: Board)
    requires
        board_wf(b),
    ensures
        forall|i: int|
            0 <= i < child_boards(b).len() ==> board_wf(#[trigger] child_boards(b)[i]) && stones(
                child_boards(b)[i],
            ) == stones(b) + 1,
{
    assert forall|i: int| 0 <= i < child_boards(b).len() implies board_wf(
        #[trigger] child_boards(b)[i],
    ) && stones(child_boards(b)[i]) == stones(b) + 1 by {
        let c = child_boards(b)[i];
        assert(child_boards(b).contains(c));
        lemma_child_upto_contains(b, 36, c);
        let (sq, k) = choose|sq: u64, k: int|
            sq < 36 && free_spec(b, sq) && 0 <= k < 6 && c == child_at(b, sq, k);
        lemma_child_wf(b, turn_spec(b), sq, all_swaps()[k]);
    }
}

/// A board short of full has at least one cell's worth of children.
pub proof fn lemma_child_boards_nonempty(b: Board)
    requires
        board_wf(b),
        stones(b) < 36,
    ensures
        child_boards(b).len() >= 6,
{
    let occ = occupied(b);
    lemma_bit_basics(b.player1, b.player2, 0, 0);
    lemma_pop_free(occ, 36);
    let sq = choose|sq: u64| sq < 36 && !bit(occ, sq);
    lemma_child_upto_at_least(b, sq, 36);
}

/// A prefix reaching past a free cell holds that cell's six children.
proof fn lemma_child_upto_at_least(b: Board, sq: u64, n: u64)
    requires
        free_spec(b, sq),
        sq < n <= 36,
    ensures
        child_upto(b, n).len() >= 6,
    decreases n,
{
    if sq + 1 < n {
        lemma_child_upto_at_least(b, sq, (n - 1) as u64);
    }
}

/// The search value stays within the win scale, whatever the window.
pub proof fn lemma_negamax_bounds(b: Board, depth: u32, alpha: int, beta: int)
    requires
        board_wf(b),
        -1_000_000 <= alpha < beta <= 1_000_000,
    ensures
        -1_000_000 <= negamax_value(b, depth, alpha, beta) <= 1_000_000,
    decreases depth, 0int, 0int,
{
    lemma_pop_below_bound(occupied(b), 36);
    match outcome_spec(b) {
        Some(o) => {},
        None => {
            if depth != 0 {
                let max_score = 1_000_000 - stones(b) - 1;
                if !(beta > max_score && alpha >= max_score) {
                    let beta2 = if beta > max_score {
                        max_score
                    } else {
                        beta
                    };
                    lemma_child_boards_wf(b);
                    lemma_negamax_children_bounds(
                        child_boards(b),
                        0,
                        (depth - 1) as u32,
                        alpha,
                        beta2,
                    );
                }
            }
        },
    }
}

/// See `lemma_negamax_bounds`: the loop value stays within the win scale.
pub proof fn lemma_negamax_children_bounds(
    cs: Seq<Board>,
    i: int,
    depth: u32,
    alpha: int,
    beta: int,
)
    requires
        forall|j: int| 0 <= j < cs.len() ==> board_wf(#[trigger] cs[j]),
        -1_000_000 <= alpha < beta <= 1_000_000,
    ensures
        -1_000_000 <= negamax_children_value(cs, i, depth, alpha, beta) <= 1_000_000,
    decreases depth, cs.len() - i, 1int,
{
    if 0 <= i < cs.len() {
        lemma_negamax_bounds(cs[i], depth, -beta, -alpha);
        let score = -negamax_value(cs[i], depth, -beta, -alpha);
        if score < beta {
            let alpha2 = if score > alpha {
                score
            } else {
                alpha
            };
            lemma_negamax_children_bounds(cs, i + 1, depth, alpha2, beta);
        }
    }
}

/// The children loop certifies a win it can reach: if some child at or
/// past `i` is terminal with a value at or below the negated window top,
/// the loop's result reaches the window top.
proof fn lemma_children_value_cutoff(
    cs: Seq<Board>,
    i: int,
    w: int,
    depth: u32,
    alpha: int,
    beta: int,
)
    requires
        forall|j: int| 0 <= j < cs.len() ==> board_wf(#[trigger] cs[j]),
        0 <= i <= w < cs.len(),
        -1_000_000 <= alpha < beta <= 1_000_000,
        outcome_spec(cs[w]) is Some,
        terminal_value(cs[w], outcome_spec(cs[w])->Some_0) <= -beta,
    ensures
        negamax_children_value(cs, i, depth, alpha, beta) >= beta,
    decreases w - i,
{
    lemma_negamax_bounds(cs[i], depth, -beta, -alpha);
    let score = -negamax_value(cs[i], depth, -beta, -alpha);
    if i == w {
        assert(negamax_value(cs[w], depth, -beta, -alpha) == terminal_value(
            cs[w],
            outcome_spec(cs[w])->Some_0,
        ));
        assert(score >= beta);
    } else if score < beta {
        let alpha2 = if score > alpha {
            score
        } else {
            alpha
        };
        lemma_children_value_cutoff(cs, i + 1, w, depth, alpha2, beta);
    }
}

/// A one-move win is certified: when the mover has a child that ends the
/// game in their favour, the full-window search value at any depth of at
/// least one reaches the guaranteed-win scale, above the short-circuit
/// threshold the root search uses.
pub proof fn lemma_negamax_finds_win(b: Board, depth: u32)
    requires
        board_wf(b),
        outcome_spec(b) is None,
        depth >= 1,
        exists|i: int|
            0 <= i < child_boards(b).len() && outcome_spec(#[trigger] child_boards(b)[i]) == Some(
                Outcome::win_spec(turn_spec(b)),
            ),
    ensures
        negamax_value(b, depth, -1_000_000, 1_000_000) >= 1_000_000 - stones(b) - 1,
        negamax_value(b, depth, -1_000_000, 1_000_000) > 999_900,
{
    lemma_pop_below_bound(occupied(b), 36);
    lemma_bit_basics(b.player1, b.player2, 0, 0);
    lemma_popcount_full(occupied(b), 0);
    assert(stones(b) <= 35);
    lemma_child_boards_wf(b);
    let w = choose|i: int|
        0 <= i < child_boards(b).len() && outcome_spec(#[trigger] child_boards(b)[i]) == Some(
            Outcome::win_spec(turn_spec(b)),
        );
    let cw = child_boards(b)[w];
    let max_score = 1_000_000 - stones(b) - 1;
    assert(stones(cw) == stones(b) + 1);
    assert(turn_spec(cw) != turn_spec(b));
    assert(terminal_value(cw, Outcome::win_spec(turn_spec(b))) == -max_score);
    lemma_children_value_cutoff(child_boards(b), 0, w, (depth - 1) as u32, -1_000_000, max_score);
}

/// Searches `board` to the given depth inside the window `(alpha, beta)`.
/// `None` reports an expired clock, never a computed value; a `Some` score
/// is exact for terminal positions and depth zero, and with the clock
/// unarmed and the cache's read path off the result is exactly
/// `negamax_value`: deterministic across runs, whatever the cache holds.
pub fn negamax(
    board: Board,
    depth: u32,
    alpha: i32,
    beta: i32,
    transpo_table: &mut TranspositionTable,
    clock: &SearchClock,
) -> (r: Option<i32>)
    requires
        board_wf(board),
        old(transpo_table).wf(),
        -1_000_000 <= alpha < beta <= 1_000_000,
    ensures
        final(transpo_table).wf(),
        final(transpo_table).capacity() == old(transpo_table).capacity(),
        final(transpo_table).lookups() == old(transpo_table).lookups(),
        r is None ==> clock.is_armed(),
        r matches Some(v) ==> -1_000_000 <= v <= 1_000_000,
        (!clock.is_armed() && !old(transpo_table).lookups()) ==> (r matches Some(v) && v as int
            == negamax_value(board, depth, alpha as int, beta as int)),
        outcome_spec(board) matches Some(o) ==> (r matches Some(v) ==> v as int == terminal_value(
            board,
            o,
        )),
        (outcome_spec(board) is None && depth == 0) ==> (r matches Some(v) ==> v as int
            == eval_spec(board)),
        outcome_spec(board) matches Some(o) ==> (depth < 3 || !clock.is_armed() ==> r is Some),
        (outcome_spec(board) is None && depth == 0) ==> r is Some,
    decreases depth,
{
    let ghost exact = !clock.is_armed() && !old(transpo_table).lookups();
    let ghost target = negamax_value(board, depth, alpha as int, beta as int);
    if depth >= 3 && clock.expired() {
        return None;
    }
    proof {
        lemma_pop_below_bound(occupied(board), 36);
    }
    let outcome_opt = board.outcome();
    if let Some(outcome) = outcome_opt {
        let mover1 = board.turn() == Player::Player1;
        let win_score: i32 = 1_000_000 - board.turn_number() as i32;
        let value: i32 = match outcome {
            Outcome::Player1Win => if mover1 {
                win_score
            } else {
                -win_score
            },
            Outcome::Player2Win => if mover1 {
                -win_score
            } else {
                win_score
            },
            Outcome::Draw => 0,
        };
        return Some(value);
    }
    if depth == 0 {
        return Some(eval(board));
    }
    let mut beta_run = beta;
    let mut max_score: i32 = 1_000_000 - board.turn_number() as i32 - 1;
    if transpo_table.lookups_on() {
        if let Some(upper_bound) = transpo_table.get(board, depth) {
            max_score = upper_bound;
        }
    }
    if beta_run > max_score {
        beta_run = max_score;
        if alpha >= beta_run {
            return Some(beta_run);
        }
    }
    let mut children = board.children(false);
    proof {
        lemma_child_boards_wf(board);
    }
    // Order promising children first from shallower passes, when reads are on.
    if depth > 3 && transpo_table.lookups_on() {
        order_children(&mut children, transpo_table, depth - 1);
    }
    let ghost cs = children@;
    let ghost beta0 = beta_run as int;
    proof {
        if exact {
            assert(cs == child_boards(board));
            assert(negamax_children_value(cs, 0, (depth - 1) as u32, alpha as int, beta0)
                == target);
        }
    }
    let mut alpha_run = alpha;
    let mut i: usize = 0;
    while i < children.len()
        invariant
            board_wf(board),
            transpo_table.wf(),
            transpo_table.capacity() == old(transpo_table).capacity(),
            transpo_table.lookups() == old(transpo_table).lookups(),
            children@ == cs,
            i <= cs.len(),
            outcome_spec(board) is None,
            forall|j: int| 0 <= j < cs.len() ==> board_wf(#[trigger] cs[j]),
            -1_000_000 <= alpha_run < beta_run as int,
            beta_run as int == beta0 <= 1_000_000,
            depth >= 1,
            exact == (!clock.is_armed() && !old(transpo_table).lookups()),
            target == negamax_value(board, depth, alpha as int, beta as int),
            exact ==> negamax_children_value(cs, i as int, (depth - 1) as u32, alpha_run as int, beta0) == target,
        decreases cs.len() - i,
    {
        let c = children[i];
        let search_result = negamax(c, depth - 1, -beta_run, -alpha_run, transpo_table, clock);
        let score = match search_result {
            Some(value) => -value,
            None => {
                return None;
            },
        };
        proof {
            if exact {
                assert(score as int == -negamax_value(
                    cs[i as int],
                    (depth - 1) as u32,
                    -beta0,
                    -(alpha_run as int),
                ));
            }
        }
        if score >= beta_run {
            proof {
                if exact {
                    assert(negamax_children_value(
                        cs,
                        i as int,
                        (depth - 1) as u32,
                        alpha_run as int,
                        beta0,
                    ) == score as int);
                }
            }
            return Some(score);
        }
        if score > alpha_run {
            alpha_run = score;
        }
        i = i + 1;
    }
    transpo_table.put(board, alpha_run, depth);
    Some(alpha_run)
}

/// How deep iterative deepening may go: past the longest possible game,
/// so in practice only the clock ends a search.
pub const MAX_SEARCH_DEPTH: u32 = 40;

/// Chooses an action for `board` within the given wall-clock budget, by
/// iterative deepening from depth three: each pass searches every child,
/// returns at once on a proven win, re-sorts the children by their scores
/// (with random tie-breaking) to sharpen the next pass, and on an expired
/// clock falls back to the best action of the last completed pass.  The
/// empty starting board is answered from a fixed tabulated opening: place
/// on cell seven and exchange the two bottom quadrants.
pub fn search(board: Board, duration: Duration, transpo_table: &mut TranspositionTable) -> (r:
    Action)
    requires
        board_wf(board),
        stones(board) < 36,
        old(transpo_table).wf(),
    ensures
        final(transpo_table).wf(),
        final(transpo_table).capacity() == old(transpo_table).capacity(),
        final(transpo_table).lookups() == old(transpo_table).lookups(),
        legal_action(board, r),
        board == empty_board() ==> r == (Action { square: 7, swap: Swap::BL_BR }),
{
    if board.player1 == 0 && board.player2 == 0 {
        proof {
            assert((0u64 | 0u64) & (1u64 << 7u64) == 0) by (bit_vector);
        }
        return Action::new(7, Swap::BL_BR);
    }
    let ms = duration.as_millis();
    let budget: u64 = if ms > 0xFFFF_FFFF_FFFF_FFFF {
        0xFFFF_FFFF_FFFF_FFFF
    } else {
        ms as u64
    };
    let clock = SearchClock::started(budget);
    let kids = board.children(false);
    proof {
        lemma_child_boards_wf(board);
        lemma_child_boards_nonempty(board);
    }
    let mut children: Vec<(Board, i32)> = Vec::new();
    let mut k: usize = 0;
    while k < kids.len()
        invariant
            kids@ == child_boards(board),
            board_wf(board),
            k <= kids@.len(),
            children@.len() == k,
            forall|j: int|
                0 <= j < child_boards(board).len() ==> board_wf(#[trigger] child_boards(board)[j]),
            forall|j: int|
                0 <= j < k ==> child_boards(board).contains((#[trigger] children@[j]).0),
        decreases kids@.len() - k,
    {
        proof {
            assert(child_boards(board).contains(kids@[k as int]));
        }
        children.push((kids[k], 0));
        k = k + 1;
    }
    let mut depth: u32 = 3;
    while depth <= MAX_SEARCH_DEPTH
        invariant
            board_wf(board),
            transpo_table.wf(),
            transpo_table.capacity() == old(transpo_table).capacity(),
            transpo_table.lookups() == old(transpo_table).lookups(),
            board != empty_board(),
            children@.len() >= 1,
            forall|j: int|
                0 <= j < children@.len() ==> child_boards(board).contains(
                    (#[trigger] children@[j]).0,
                ),
            forall|j: int|
                0 <= j < child_boards(board).len() ==> board_wf(#[trigger] child_boards(board)[j]),
        decreases MAX_SEARCH_DEPTH + 1 - depth,
    {
        let best_action = board.action_to(children[0].0);
        let mut alpha: i32 = -1_000_000;
        let beta: i32 = 999_950;
        let mut i: usize = 0;
        while i < children.len()
            invariant
                board_wf(board),
                transpo_table.wf(),
                transpo_table.capacity() == old(transpo_table).capacity(),
                transpo_table.lookups() == old(transpo_table).lookups(),
                board != empty_board(),
                children@.len() >= 1,
                i <= children@.len(),
                forall|j: int|
                    0 <= j < children@.len() ==> child_boards(board).contains(
                        (#[trigger] children@[j]).0,
                    ),
                forall|j: int|
                    0 <= j < child_boards(board).len() ==> board_wf(
                        #[trigger] child_boards(board)[j],
                    ),
                -1_000_000 <= alpha < beta == 999_950,
                legal_action(board, best_action),
            decreases children@.len() - i,
        {
            let c = children[i].0;
            proof {
                let cb = child_boards(board);
                let ci = choose|t: int| 0 <= t < cb.len() && cb[t] == c;
                assert(board_wf(cb[ci]));
            }
            let search_result = negamax(c, depth, -beta, -alpha, transpo_table, &clock);
            let score = match search_result {
                Some(value) => -value,
                None => {
                    return best_action;
                },
            };
            if score >= beta {
                return board.action_to(c);
            }
            if score > alpha {
                alpha = score;
            }
            children[i] = (c, score);
            i = i + 1;
        }
        resort_children(&mut children);
        depth = depth + 1;
    }
    board.action_to(children[0].0)
}

/// Reorders the scored children best first, each score perturbed by a
/// little random jitter so equal moves alternate between searches.  Only
/// the order changes: the entries are the same scored boards.
fn resort_children(children: &mut Vec<(Board, i32)>)
    ensures
        final(children)@.to_multiset() == old(children)@.to_multiset(),
        final(children)@.len() == old(children)@.len(),
        forall|k: int|
            0 <= k < final(children)@.len() ==> old(children)@.contains(
                #[trigger] final(children)@[k],
            ),
{
    let ghost orig = old(children)@;
    // Jittered sort keys, index-aligned with the remaining entries.
    let mut keys: Vec<i64> = Vec::new();
    let mut j: usize = 0;
    while j < children.len()
        invariant
            children@ == orig,
            j <= orig.len(),
            keys@.len() == j,
        decreases orig.len() - j,
    {
        let jitter = random_below(21) as i64;
        keys.push(-(children[j].1 as i64) + (jitter - 10));
        j = j + 1;
    }
    let mut out: Vec<(Board, i32)> = Vec::new();
    proof {
        broadcast use vstd::multiset::group_multiset_axioms;

        out@.to_multiset_ensures();
        assert(out@.to_multiset().add(children@.to_multiset()) =~= orig.to_multiset());
    }
    while children.len() > 0
        invariant
            keys@.len() == children@.len(),
            out@.len() + children@.len() == orig.len(),
            out@.to_multiset().add(children@.to_multiset()) == orig.to_multiset(),
            forall|m: int| 0 <= m < children@.len() ==> orig.contains(#[trigger] children@[m]),
            forall|m: int| 0 <= m < out@.len() ==> orig.contains(#[trigger] out@[m]),
        decreases children@.len(),
    {
        let mut best: usize = 0;
        let mut m: usize = 1;
        while m < keys.len()
            invariant
                keys@.len() > 0,
                best < keys@.len(),
                m <= keys@.len(),
            decreases keys@.len() - m,
        {
            if keys[m] < keys[best] {
                best = m;
            }
            m = m + 1;
        }
        let ghost before = children@;
        let ghost out_before = out@;
        let picked = children.remove(best);
        let _ = keys.remove(best);
        out.push(picked);
        proof {
            broadcast use vstd::multiset::group_multiset_axioms;

            assert(orig.contains(picked));
            assert(children@ == before.remove(best as int) && picked == before[best as int]);
            before.to_multiset_ensures();
            vstd::seq_lib::to_multiset_remove(before, best as int);
            vstd::seq_lib::to_multiset_build(out_before, picked);
            assert(before.to_multiset().count(picked) >= 1);
            assert(out@.to_multiset().add(children@.to_multiset()) =~= orig.to_multiset());
            assert forall|t: int| 0 <= t < children@.len() implies orig.contains(
                #[trigger] children@[t],
            ) by {
                if t < best as int {
                    assert(children@[t] == before[t]);
                } else {
                    assert(children@[t] == before[t + 1]);
                }
            }
        }
    }
    proof {
        broadcast use vstd::multiset::group_multiset_axioms;

        children@.to_multiset_ensures();
        assert(out@.to_multiset() =~= orig.to_multiset());
    }
    *children = out;
}

/// Reorders children ascending by their cached score from a shallower
/// pass, so that the strongest replies are searched first.  Only the
/// order changes: the entries are the same boards.
fn order_children(children: &mut Vec<Board>, table: &TranspositionTable, min_depth: u32)
    requires
        table.wf(),
    ensures
        final(children)@.to_multiset() == old(children)@.to_multiset(),
        final(children)@.len() == old(children)@.len(),
        forall|k: int|
            0 <= k < final(children)@.len() ==> old(children)@.contains(
                #[trigger] final(children)@[k],
            ),
{
    let ghost orig = old(children)@;
    let mut sorted: Vec<Board> = Vec::new();
    proof {
        broadcast use vstd::multiset::group_multiset_axioms;

        sorted@.to_multiset_ensures();
        assert(sorted@.to_multiset().add(children@.to_multiset()) =~= orig.to_multiset());
    }
    while children.len() > 0
        invariant
            table.wf(),
            sorted@.len() + children@.len() == orig.len(),
            sorted@.to_multiset().add(children@.to_multiset()) == orig.to_multiset(),
            forall|k: int| 0 <= k < children@.len() ==> orig.contains(#[trigger] children@[k]),
            forall|k: int| 0 <= k < sorted@.len() ==> orig.contains(#[trigger] sorted@[k]),
        decreases children@.len(),
    {
        let mut best: usize = 0;
        let mut best_key: i32 = match table.get(children[0], min_depth) {
            Some(v) => v,
            None => 0,
        };
        let mut j: usize = 1;
        while j < children.len()
            invariant
                table.wf(),
                children@.len() > 0,
                best < children@.len(),
                j <= children@.len(),
            decreases children@.len() - j,
        {
            let key = match table.get(children[j], min_depth) {
                Some(v) => v,
                None => 0,
            };
            if key < best_key {
                best = j;
                best_key = key;
            }
            j = j + 1;
        }
        let ghost before = children@;
        let ghost sorted_before = sorted@;
        let picked = children.remove(best);
        sorted.push(picked);
        proof {
            broadcast use vstd::multiset::group_multiset_axioms;

            assert(orig.contains(picked));
            assert(children@ == before.remove(best as int) && picked == before[best as int]);
            before.to_multiset_ensures();
            vstd::seq_lib::to_multiset_remove(before, best as int);
            vstd::seq_lib::to_multiset_build(sorted_before, picked);
            assert(before.to_multiset().count(picked) >= 1);
            assert(sorted@.to_multiset().add(children@.to_multiset()) =~= orig.to_multiset());
        }
    }
    proof {
        broadcast use vstd::multiset::group_multiset_axioms;

        children@.to_multiset_ensures();
        assert(sorted@.to_multiset() =~= orig.to_multiset());
    }
    *children = sorted;
}

} // verus!
