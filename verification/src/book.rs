//! The verified core of the opening-book builder: book records, the
//! canonical child listing they are keyed by, aggregation of child
//! statistics, and the selection rules that walk the book.  Reading and
//! writing the records is the surrounding layer's business.
use vstd::prelude::*;

use std::time::Duration;

use crate::alpha_beta::search::lemma_child_boards_wf;
use crate::alpha_beta::transposition_table::TranspositionTable;
use crate::bits::lemma_bit_basics;
use crate::bits::lemma_pop_below_bound;
use crate::bits::lemma_popcount_full;
use crate::fixed::isqrt64;
use crate::fixed::ln_micro;
use crate::game::board::board_wf;
use crate::game::board::child_boards;
use crate::game::board::lemma_child_wf;
use crate::game::board::occupied;
use crate::game::board::outcome_spec;
use crate::game::board::stones;
use crate::game::board::turn_spec;
use crate::game::board::Board;
use crate::game::board_symmetries::canonical_spec;
use crate::game::board_symmetries::lemma_canonical_wf;
use crate::game::outcome::Outcome;
use crate::game::player::Player;

verus! {

/// The most games one book record may carry: keeps sums and products of
/// counts within a word.
pub const BOOK_COUNT_LIMIT: i64 = 0x4000_0000;

/// One opening-book record: aggregated game statistics for a canonical
/// board, and whether its children have been materialized.
#[derive(Debug, PartialEq, Eq, Structural, Clone, Copy)]
pub struct Node {
    pub board: Board,
    pub games_played: i64,
    pub player1_wins: i64,
    pub player2_wins: i64,
    pub expanded: bool,
}

/// The record invariant: counts are plausible and small enough that the
/// selection arithmetic cannot overflow.
pub open spec fn node_wf(n: Node) -> bool {
    &&& 0 <= n.player1_wins <= n.games_played <= BOOK_COUNT_LIMIT
    &&& 0 <= n.player2_wins <= n.games_played
}

/// The given player's win count of a record.
pub open spec fn node_wins(n: Node, p: Player) -> i64 {
    match p {
        Player::Player1 => n.player1_wins,
        Player::Player2 => n.player2_wins,
    }
}

/// `a`'s win ratio for `p` is at most `b`'s, compared exactly by cross
/// multiplication.
pub open spec fn ratio_le(a: Node, b: Node, p: Player) -> bool {
    node_wins(a, p) * b.games_played <= node_wins(b, p) * a.games_played
}

/// True when `x` is the canonical form of some child of `board`.
pub open spec fn is_canonical_of_child(board: Board, x: Board) -> bool {
    exists|c: Board| child_boards(board).contains(c) && x == canonical_spec(c)
}

/// The canonical forms of all children of `board`, each listed once:
/// the keys under which the book merges symmetric positions.
pub fn canonical_children(board: Board) -> (r: Vec<Board>)
    requires
        board_wf(board),
    ensures
        forall|i: int| 0 <= i < r@.len() ==> board_wf(#[trigger] r@[i]),
        forall|i: int, j: int| 0 <= i < j < r@.len() ==> r@[i] != r@[j],
        forall|i: int| 0 <= i < r@.len() ==> is_canonical_of_child(board, #[trigger] r@[i]),
        forall|c: Board|
            child_boards(board).contains(c) ==> r@.contains(#[trigger] canonical_spec(c)),
{
    let kids = board.children(false);
    proof {
        lemma_child_boards_wf(board);
    }
    let mut out: Vec<Board> = Vec::new();
    let mut k: usize = 0;
    while k < kids.len()
        invariant
            kids@ == child_boards(board),
            board_wf(board),
            k <= kids@.len(),
            forall|j: int|
                0 <= j < child_boards(board).len() ==> board_wf(#[trigger] child_boards(board)[j]),
            forall|i: int| 0 <= i < out@.len() ==> board_wf(#[trigger] out@[i]),
            forall|i: int, j: int| 0 <= i < j < out@.len() ==> out@[i] != out@[j],
            forall|i: int| 0 <= i < out@.len() ==> is_canonical_of_child(board, #[trigger] out@[i]),
            forall|j: int| 0 <= j < k ==> out@.contains(#[trigger] canonical_spec(kids@[j])),
        decreases kids@.len() - k,
    {
        proof {
            assert(child_boards(board).contains(kids@[k as int]));
            lemma_canonical_wf(kids@[k as int]);
        }
        let c = kids[k].canonical();
        let mut found = false;
        let mut m: usize = 0;
        while m < out.len()
            invariant
                m <= out@.len(),
                found <==> exists|t: int| 0 <= t < m && out@[t] == c,
            decreases out@.len() - m,
        {
            if out[m] == c {
                found = true;
                proof {
                    assert(out@[m as int] == c);
                }
            }
            m = m + 1;
        }
        if !found {
            let ghost before = out@;
            out.push(c);
            proof {
                assert(out@ == before.push(c));
                assert(out@[before.len() as int] == c);
                assert forall|i: int| 0 <= i < out@.len() implies is_canonical_of_child(
                    board,
                    #[trigger] out@[i],
                ) by {
                    if i < before.len() {
                        assert(out@[i] == before[i]);
                    } else {
                        assert(child_boards(board).contains(kids@[k as int]) && out@[i]
                            == canonical_spec(kids@[k as int]));
                    }
                }
                assert forall|j: int| 0 <= j < k + 1 implies out@.contains(
                    #[trigger] canonical_spec(kids@[j]),
                ) by {
                    if j < k {
                        let t = choose|t: int| 0 <= t < before.len() && before[t] == canonical_spec(
                            kids@[j],
                        );
                        assert(out@[t] == canonical_spec(kids@[j]));
                    } else {
                        assert(out@[before.len() as int] == canonical_spec(kids@[j]));
                    }
                }
            }
        } else {
            proof {
                let t = choose|t: int| 0 <= t < out@.len() && out@[t] == c;
                assert(out@.contains(canonical_spec(kids@[k as int])));
            }
        }
        k = k + 1;
    }
    out
}

/// The total games of a listing of records.
pub open spec fn sum_games(s: Seq<Node>) -> int
    decreases s.len(),
{
    if s.len() == 0 {
        0
    } else {
        sum_games(s.drop_last()) + s.last().games_played
    }
}

/// The total player-1 wins of a listing of records.
pub open spec fn sum_p1(s: Seq<Node>) -> int
    decreases s.len(),
{
    if s.len() == 0 {
        0
    } else {
        sum_p1(s.drop_last()) + s.last().player1_wins
    }
}

/// The total player-2 wins of a listing of records.
pub open spec fn sum_p2(s: Seq<Node>) -> int
    decreases s.len(),
{
    if s.len() == 0 {
        0
    } else {
        sum_p2(s.drop_last()) + s.last().player2_wins
    }
}

/// Sums of well-formed records stay within the aggregation bounds.
proof fn lemma_sum_bounds(s: Seq<Node>)
    requires
        forall|i: int| 0 <= i < s.len() ==> node_wf(#[trigger] s[i]),
    ensures
        0 <= sum_p1(s) <= sum_games(s),
        0 <= sum_p2(s) <= sum_games(s),
        sum_games(s) <= s.len() * BOOK_COUNT_LIMIT,
    decreases s.len(),
{
    if s.len() > 0 {
        lemma_sum_bounds(s.drop_last());
        assert(((s.len() - 1) as int) * BOOK_COUNT_LIMIT + BOOK_COUNT_LIMIT == s.len()
            * BOOK_COUNT_LIMIT) by (nonlinear_arith);
    }
}

/// Replaces a record's statistics by the totals of its children's: the
/// book re-derives a position's figures from its children on each pass.
pub fn aggregate_stats(node: &mut Node, children: &Vec<Node>)
    requires
        children@.len() <= 1296,
        forall|i: int| 0 <= i < children@.len() ==> node_wf(#[trigger] children@[i]),
    ensures
        final(node).board == old(node).board,
        final(node).expanded == old(node).expanded,
        final(node).games_played == sum_games(children@),
        final(node).player1_wins == sum_p1(children@),
        final(node).player2_wins == sum_p2(children@),
{
    node.games_played = 0;
    node.player1_wins = 0;
    node.player2_wins = 0;
    let mut i: usize = 0;
    while i < children.len()
        invariant
            children@.len() <= 1296,
            forall|j: int| 0 <= j < children@.len() ==> node_wf(#[trigger] children@[j]),
            i <= children@.len(),
            node.board == old(node).board,
            node.expanded == old(node).expanded,
            node.games_played == sum_games(children@.take(i as int)),
            node.player1_wins == sum_p1(children@.take(i as int)),
            node.player2_wins == sum_p2(children@.take(i as int)),
            0 <= node.player1_wins <= node.games_played,
            0 <= node.player2_wins <= node.games_played,
            node.games_played <= (i as int) * BOOK_COUNT_LIMIT,
        decreases children@.len() - i,
    {
        proof {
            lemma_sum_bounds(children@.take(i as int));
            assert(children@.take(i as int + 1).drop_last() =~= children@.take(i as int));
            assert(children@.take(i as int + 1).last() == children@[i as int]);
            assert((i as int) * BOOK_COUNT_LIMIT + BOOK_COUNT_LIMIT == (i as int + 1)
                * BOOK_COUNT_LIMIT) by (nonlinear_arith);
            assert((i as int + 1) * BOOK_COUNT_LIMIT <= 1296 * BOOK_COUNT_LIMIT)
                by (nonlinear_arith)
                requires
                    i as int + 1 <= 1296,
            ;
        }
        node.games_played = node.games_played + children[i].games_played;
        node.player1_wins = node.player1_wins + children[i].player1_wins;
        node.player2_wins = node.player2_wins + children[i].player2_wins;
        i = i + 1;
    }
    proof {
        assert(children@.take(children@.len() as int) =~= children@);
    }
}

/// The book's upper confidence bound for a record, in millionths, from
/// the perspective of the player to move on that record's board.
pub open spec fn book_ucb_micro(n: Node, total_games: i64) -> int {
    (node_wins(n, turn_spec(n.board)) * 1_000_000) as int / (n.games_played as int)
        + crate::mcts::win_stats::sqrt_floor_of(
        ((2 * crate::fixed::ln_micro_spec(total_games as u64) * 1_000_000) as int / (
        n.games_played as int)) as u64,
    )
}

/// Picks the child record to expand next: the greatest upper confidence
/// bound, perturbed by a grain of random jitter, so the returned index is
/// within a hundred millionths of the true maximum.
pub fn pick_best_ucb(children: &Vec<Node>, total_games: i64) -> (r: usize)
    requires
        children@.len() >= 1,
        1 <= total_games <= BOOK_COUNT_LIMIT,
        forall|i: int|
            node_wf(#[trigger] children@[i]) && children@[i].games_played >= 1 || !(0 <= i
                < children@.len()),
    ensures
        r < children@.len(),
        forall|j: int|
            0 <= j < children@.len() ==> book_ucb_micro(#[trigger] children@[j], total_games)
                <= book_ucb_micro(children@[r as int], total_games) + 100,
{
    let mut best: usize = 0;
    let mut best_key: u64 = 0;
    let mut j: usize = 0;
    while j < children.len()
        invariant
            children@.len() >= 1,
            1 <= total_games <= BOOK_COUNT_LIMIT,
            forall|i: int|
                node_wf(#[trigger] children@[i]) && children@[i].games_played >= 1 || !(0 <= i
                    < children@.len()),
            j <= children@.len(),
            j >= 1 ==> best < j,
            j >= 1 ==> best_key as int >= book_ucb_micro(children@[best as int], total_games),
            j >= 1 ==> best_key as int <= book_ucb_micro(children@[best as int], total_games)
                + 100,
            forall|m: int|
                0 <= m < j ==> book_ucb_micro(#[trigger] children@[m], total_games)
                    <= best_key as int,
        decreases children@.len() - j,
    {
        let key = book_ucb(&children[j], total_games) + crate::rng::random_below(100);
        if j == 0 || key > best_key {
            best = j;
            best_key = key;
        }
        j = j + 1;
    }
    best
}

/// The book's upper confidence bound, computed in millionths.
fn book_ucb(n: &Node, total_games: i64) -> (r: u64)
    requires
        node_wf(*n),
        n.games_played >= 1,
        1 <= total_games <= BOOK_COUNT_LIMIT,
    ensures
        r as int == book_ucb_micro(*n, total_games),
        r <= 0x2_0000_0000,
{
    let player = n.board.turn();
    let w: i64 = match player {
        Player::Player1 => n.player1_wins,
        Player::Player2 => n.player2_wins,
    };
    proof {
        assert((w as u64) * 1_000_000 <= 0x4000_0000u64 * 1_000_000) by (nonlinear_arith)
            requires
                0 <= w <= 0x4000_0000i64,
        ;
        assert(((w as u64) * 1_000_000) as int / (n.games_played as u64 as int) <= 1_000_000)
            by (nonlinear_arith)
            requires
                0 <= w <= n.games_played && n.games_played as u64 >= 1,
        ;
    }
    let ratio = ((w as u64) * 1_000_000) / (n.games_played as u64);
    let ln_total = ln_micro(total_games as u64);
    let under = (2 * ln_total * 1_000_000) / (n.games_played as u64);
    let bonus = isqrt64(under);
    proof {
        crate::mcts::win_stats::lemma_sqrt_floor_agrees(under, bonus);
    }
    ratio + bonus
}

/// Picks the record with the greatest win ratio for `player`, compared
/// exactly by cross multiplication; among equals, the last one listed.
pub fn pick_best_ratio(children: &Vec<Node>, player: Player) -> (r: usize)
    requires
        children@.len() >= 1,
        forall|i: int|
            node_wf(#[trigger] children@[i]) && children@[i].games_played >= 1 || !(0 <= i
                < children@.len()),
    ensures
        r < children@.len(),
        forall|j: int|
            0 <= j < children@.len() ==> ratio_le(#[trigger] children@[j], children@[r as int], player),
{
    let mut best: usize = 0;
    let mut j: usize = 1;
    while j < children.len()
        invariant
            children@.len() >= 1,
            forall|i: int|
                node_wf(#[trigger] children@[i]) && children@[i].games_played >= 1 || !(0 <= i
                    < children@.len()),
            1 <= j <= children@.len(),
            best < j,
            forall|m: int| 0 <= m < j ==> ratio_le(#[trigger] children@[m], children@[best as int], player),
        decreases children@.len() - j,
    {
        let wj: i64 = match player {
            Player::Player1 => children[j].player1_wins,
            Player::Player2 => children[j].player2_wins,
        };
        let wb: i64 = match player {
            Player::Player1 => children[best].player1_wins,
            Player::Player2 => children[best].player2_wins,
        };
        proof {
            assert(wj * children@[best as int].games_played <= 0x4000_0000i64 * 0x4000_0000i64
                && wb * children@[j as int].games_played <= 0x4000_0000i64 * 0x4000_0000i64 && wj
                * children@[best as int].games_played >= 0 && wb * children@[j as int].games_played
                >= 0) by (nonlinear_arith)
                requires
                    0 <= wj <= 0x4000_0000i64 && 0 <= wb <= 0x4000_0000i64 && 0 <= children@[
                        best as int
                    ].games_played <= 0x4000_0000i64 && 0 <= children@[j as int].games_played
                        <= 0x4000_0000i64,
            ;
        }
        if wj * children[best].games_played >= wb * children[j].games_played {
            proof {
                lemma_ratio_le_trans(children@, best as int, j as int, player);
            }
            best = j;
        }
        j = j + 1;
    }
    best
}

/// Cross-multiplied ratio comparisons chain: whatever was at most the old
/// best is at most the new best.
proof fn lemma_ratio_le_trans(s: Seq<Node>, b: int, j: int, p: Player)
    requires
        0 <= b < s.len(),
        0 <= j < s.len(),
        forall|i: int|
            node_wf(#[trigger] s[i]) && s[i].games_played >= 1 || !(0 <= i < s.len()),
        ratio_le(s[b], s[j], p),
    ensures
        forall|m: int| 0 <= m < s.len() && ratio_le(#[trigger] s[m], s[b], p) ==> ratio_le(s[m], s[j], p),
{
    assert forall|m: int| 0 <= m < s.len() && ratio_le(#[trigger] s[m], s[b], p) implies ratio_le(
        s[m],
        s[j],
        p,
    ) by {
        let wm = node_wins(s[m], p);
        let wb = node_wins(s[b], p);
        let wj = node_wins(s[j], p);
        let nm = s[m].games_played;
        let nb = s[b].games_played;
        let nj = s[j].games_played;
        assert(wm * nj <= wj * nm) by (nonlinear_arith)
            requires
                wm * nb <= wb * nm && wb * nj <= wj * nb && nm >= 1 && nb >= 1 && nj >= 1 && 0 <= wm
                    && 0 <= wb && 0 <= wj,
        ;
    }
}

/// Plays one full game from `board`, both sides choosing with the searcher
/// under the given per-move budget, and reports how it ended.
pub fn play_game(board: Board, move_millis: u64, transpo_table: &mut TranspositionTable) -> (r:
    Outcome)
    requires
        board_wf(board),
        old(transpo_table).wf(),
    ensures
        final(transpo_table).wf(),
        final(transpo_table).capacity() == old(transpo_table).capacity(),
        final(transpo_table).lookups() == old(transpo_table).lookups(),
        outcome_spec(board) matches Some(o) ==> r == o,
{
    let mut state = board;
    proof {
        lemma_pop_below_bound(occupied(state), 36);
    }
    let mut out = state.outcome();
    while out.is_none()
        invariant
            board_wf(state),
            stones(state) <= 36,
            out == outcome_spec(state),
            transpo_table.wf(),
            transpo_table.capacity() == old(transpo_table).capacity(),
            transpo_table.lookups() == old(transpo_table).lookups(),
            outcome_spec(board) matches Some(o) ==> out == Some(o),
        decreases 37 - stones(state),
    {
        proof {
            lemma_bit_basics(state.player1, state.player2, 0, 0);
            lemma_popcount_full(occupied(state), 0);
        }
        let action = crate::best_move(state, Duration::from_millis(move_millis), transpo_table);
        let ghost pre = state;
        state = state.apply_action(action);
        proof {
            lemma_child_wf(pre, turn_spec(pre), action.square as u64, action.swap);
        }
        out = state.outcome();
    }
    match out {
        Some(o) => o,
        None => vstd::pervasive::unreached(),
    }
}

} // verus!
