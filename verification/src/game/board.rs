//! The bit-packed board: two disjoint 36-bit occupancy words over a 6x6
//! grid of four 3x3 quadrants, with win detection, move enumeration and
//! symmetry canonicalization.
use vstd::prelude::*;

use crate::bits::bit;
use crate::bits::in_board;
use crate::bits::lemma_bit_basics;
use crate::bits::lemma_pop_below_bound;
use crate::bits::lemma_pop_disjoint;
use crate::bits::lemma_pop_ext;
use crate::bits::lemma_pop_shl;
use crate::bits::lemma_pop_shr;
use crate::bits::lemma_popcount_full;
use crate::bits::lemma_set_free_bit;
use crate::bits::pop_below;
use crate::bits::popcount36;
use crate::bits::BOARD_MASK;
use crate::game::action::Action;
use crate::game::board_symmetries::canonical_spec;
use crate::game::board_symmetries::flip_antidiagonal;
use crate::game::board_symmetries::flip_diagonal;
use crate::game::board_symmetries::flip_horizontal;
use crate::game::board_symmetries::flip_vertical;
use crate::game::board_symmetries::lemma_canonical_wf;
use crate::game::board_symmetries::seq_min;
use crate::game::board_symmetries::transforms;
use crate::game::outcome::Outcome;
use crate::game::player::Player;
use crate::game::swap::all_swaps;
use crate::game::swap::Swap;

verus! {

/// Cells are numbered 0 to 35, row by row; cell `(r, c)` is bit `6 r + c`.
/// `player1` and `player2` hold the two players' stones and never overlap.
#[derive(Debug, PartialEq, Eq, Structural, Clone, Copy, PartialOrd, Ord, Hash)]
pub struct Board {
    pub player1: u64,
    pub player2: u64,
}

/// The board with no stones, on which player 1 is to move.
pub open spec fn empty_board() -> Board {
    Board { player1: 0, player2: 0 }
}

/// The board invariant: both words within the 36 board bits and no cell
/// claimed by both players.
pub open spec fn board_wf(b: Board) -> bool {
    &&& in_board(b.player1)
    &&& in_board(b.player2)
    &&& b.player1 & b.player2 == 0
}

/// All occupied cells, either player's.
pub open spec fn occupied(b: Board) -> u64 {
    b.player1 | b.player2
}

/// How many stones the board holds.
pub open spec fn stones(b: Board) -> int {
    popcount36(occupied(b))
}

/// Whose turn it is: player 1 exactly when the stone count is even.
pub open spec fn turn_spec(b: Board) -> Player {
    if stones(b) % 2 == 0 {
        Player::Player1
    } else {
        Player::Player2
    }
}

/// The given player's stones.
pub open spec fn stones_of(b: Board, p: Player) -> u64 {
    match p {
        Player::Player1 => b.player1,
        Player::Player2 => b.player2,
    }
}

/// True when cell `sq` exists and neither player holds it.
pub open spec fn free_spec(b: Board, sq: u64) -> bool {
    sq < 36 && !bit(occupied(b), sq)
}

/// True when every cell is occupied.
pub open spec fn full_spec(b: Board) -> bool {
    occupied(b) == BOARD_MASK
}

/// The board after `player` places a stone on cell `sq`.
pub open spec fn play_at_spec(b: Board, player: Player, sq: u64) -> Board {
    match player {
        Player::Player1 => Board { player1: b.player1 | (1u64 << sq), player2: b.player2 },
        Player::Player2 => Board { player1: b.player1, player2: b.player2 | (1u64 << sq) },
    }
}

/// The cells of one 3x3 quadrant, before shifting to its corner offset.
pub const QUADRANT_MASK: u64 = 0b111_000_111_000_111;

/// The bit offsets of the two quadrants a swap exchanges.  The corners sit
/// at offsets 0 (top left), 3 (top right), 18 (bottom left), 21 (bottom
/// right).
pub open spec fn swap_offsets(s: Swap) -> (u64, u64) {
    match s {
        Swap::TL_TR => (0u64, 3u64),
        Swap::BL_BR => (18u64, 21u64),
        Swap::TL_BL => (0u64, 18u64),
        Swap::TR_BR => (3u64, 21u64),
        Swap::TL_BR => (0u64, 21u64),
        Swap::TR_BL => (3u64, 18u64),
    }
}

/// One occupancy word after exchanging the quadrants at offsets `o1` and
/// `o2`: the two blocks trade places, everything else stays.
pub open spec fn swap_word(x: u64, o1: u64, o2: u64) -> u64 {
    let m1: u64 = QUADRANT_MASK << o1;
    let m2: u64 = QUADRANT_MASK << o2;
    (x & !(m1 | m2)) | (((x & m1) >> o1) << o2) | (((x & m2) >> o2) << o1)
}

/// One occupancy word after the given quadrant swap.
pub open spec fn swap_u64_spec(x: u64, s: Swap) -> u64 {
    swap_word(x, swap_offsets(s).0, swap_offsets(s).1)
}

/// The board after the given quadrant swap, applied to both players alike.
pub open spec fn swap_spec(b: Board, s: Swap) -> Board {
    Board { player1: swap_u64_spec(b.player1, s), player2: swap_u64_spec(b.player2, s) }
}

/// The board an action produces: place the mover's stone, then swap.
pub open spec fn apply_action_spec(b: Board, a: Action) -> Board {
    swap_spec(play_at_spec(b, turn_spec(b), a.square as u64), a.swap)
}

/// True when the action names an existing, free cell of `b`.
pub open spec fn legal_action(b: Board, a: Action) -> bool {
    free_spec(b, a.square as u64)
}

/// The `k`-th child arising from placing on `sq`: place, then apply the
/// `k`-th swap of the fixed enumeration.
pub open spec fn child_at(b: Board, sq: u64, k: int) -> Board {
    swap_spec(play_at_spec(b, turn_spec(b), sq), all_swaps()[k])
}

/// The six children arising from placing on `sq`.
pub open spec fn six_children(b: Board, sq: u64) -> Seq<Board> {
    Seq::new(6, |k: int| child_at(b, sq, k))
}

/// The children contributed by cells below `n`, in enumeration order:
/// ascending cell, then swap order.
pub open spec fn child_upto(b: Board, n: u64) -> Seq<Board>
    decreases n,
{
    if n == 0 {
        Seq::empty()
    } else if free_spec(b, (n - 1) as u64) {
        child_upto(b, (n - 1) as u64) + six_children(b, (n - 1) as u64)
    } else {
        child_upto(b, (n - 1) as u64)
    }
}

/// Every board one legal move away, in enumeration order.
pub open spec fn child_boards(b: Board) -> Seq<Board> {
    child_upto(b, 36)
}

/// The `k`-th action placing on `sq`.
pub open spec fn action_at(b: Board, sq: u64, k: int) -> Action {
    Action { square: sq as u8, swap: all_swaps()[k] }
}

/// The six actions placing on `sq`.
pub open spec fn six_actions(b: Board, sq: u64) -> Seq<Action> {
    Seq::new(6, |k: int| action_at(b, sq, k))
}

/// The actions contributed by cells below `n`, in enumeration order.
pub open spec fn action_upto(b: Board, n: u64) -> Seq<Action>
    decreases n,
{
    if n == 0 {
        Seq::empty()
    } else if free_spec(b, (n - 1) as u64) {
        action_upto(b, (n - 1) as u64) + six_actions(b, (n - 1) as u64)
    } else {
        action_upto(b, (n - 1) as u64)
    }
}

/// Every legal action, aligned index by index with `child_boards`.
pub open spec fn legal_actions(b: Board) -> Seq<Action> {
    action_upto(b, 36)
}

/// True when the opponent, placing at `sq` and applying the `k`-th swap,
/// would win at once.
pub open spec fn opponent_wins_at(b: Board, sq: u64, k: int) -> bool {
    player_won_spec(
        swap_spec(play_at_spec(b, turn_spec(b).opponent_spec(), sq), all_swaps()[k]),
        turn_spec(b).opponent_spec(),
    )
}

/// True when placing at `sq` would let the opponent win at once with some
/// swap: move generation may then restrict itself to that cell.
pub open spec fn must_block(b: Board, sq: u64) -> bool {
    exists|k: int| 0 <= k < 6 && #[trigger] opponent_wins_at(b, sq, k)
}

/// The action and child listings align: entry by entry, applying the
/// action yields the child, and every listed action is legal.
pub proof fn lemma_actions_children(b: Board, n: u64)
    requires
        n <= 36,
    ensures
        action_upto(b, n).len() == child_upto(b, n).len(),
        forall|i: int|
            0 <= i < action_upto(b, n).len() ==> legal_action(b, #[trigger] action_upto(b, n)[i])
                && apply_action_spec(b, action_upto(b, n)[i]) == child_upto(b, n)[i],
    decreases n,
{
    if n > 0 {
        let m = (n - 1) as u64;
        lemma_actions_children(b, m);
        if free_spec(b, m) {
            assert forall|i: int| 0 <= i < action_upto(b, n).len() implies legal_action(
                b,
                #[trigger] action_upto(b, n)[i],
            ) && apply_action_spec(b, action_upto(b, n)[i]) == child_upto(b, n)[i] by {
                if i >= action_upto(b, m).len() {
                    let k = i - action_upto(b, m).len();
                    assert(action_upto(b, n)[i] == action_at(b, m, k));
                    assert(child_upto(b, n)[i] == child_at(b, m, k));
                    assert((action_at(b, m, k).square as u64) == m);
                }
            }
        }
    }
}

/// True when `to` arises from `from` by a finite sequence of legal moves
/// (each step one enumerated child, one stone fuller).
pub open spec fn reachable(from: Board, to: Board) -> bool
    decreases 37 - stones(from),
{
    ||| to == from
    ||| (exists|c: Board|
        0 <= stones(from) <= 35 && #[trigger] child_boards(from).contains(c) && stones(c) == stones(
            from,
        ) + 1 && reachable(c, to))
}

/// Reachability extends by one more legal move.
pub proof fn lemma_reachable_extend(a: Board, b: Board, c: Board)
    requires
        reachable(a, b),
        0 <= stones(b) <= 35,
        child_boards(b).contains(c),
        stones(c) == stones(b) + 1,
    ensures
        reachable(a, c),
    decreases 37 - stones(a),
{
    if a == b {
        assert(child_boards(a).contains(c) && stones(c) == stones(a) + 1 && reachable(c, c));
    } else {
        let m = choose|m: Board|
            0 <= stones(a) <= 35 && #[trigger] child_boards(a).contains(m) && stones(m) == stones(a)
                + 1 && reachable(m, b);
        lemma_reachable_extend(m, b, c);
        assert(child_boards(a).contains(m) && stones(m) == stones(a) + 1 && reachable(m, c));
    }
}

/// Move enumeration and recovery agree: every enumerated child is reached
/// by a legal action, so recovering an action with `action_to` and
/// applying it with `apply_action` reproduces the child exactly.
pub proof fn lemma_child_reachable(b: Board, c: Board)
    requires
        board_wf(b),
        child_boards(b).contains(c),
    ensures
        exists|a: Action| legal_action(b, a) && apply_action_spec(b, a) == c,
{
    lemma_child_upto_contains(b, 36, c);
    let (sq, k) = choose|sq: u64, k: int|
        sq < 36 && free_spec(b, sq) && 0 <= k < 6 && c == child_at(b, sq, k);
    let a = Action { square: sq as u8, swap: all_swaps()[k] };
    assert(legal_action(b, a) && apply_action_spec(b, a) == c);
}

/// A board contains a child exactly when some free cell and swap produce it.
pub proof fn lemma_child_upto_contains(b: Board, n: u64, c: Board)
    requires
        n <= 36,
    ensures
        child_upto(b, n).contains(c) <==> exists|sq: u64, k: int|
            sq < n && free_spec(b, sq) && 0 <= k < 6 && c == child_at(b, sq, k),
    decreases n,
{
    if n == 0 {
        assert(!child_upto(b, 0).contains(c));
    } else {
        let m = (n - 1) as u64;
        lemma_child_upto_contains(b, m, c);
        if free_spec(b, m) {
            assert(child_upto(b, n) == child_upto(b, m) + six_children(b, m));
            if child_upto(b, n).contains(c) {
                let i = choose|i: int| 0 <= i < child_upto(b, n).len() && child_upto(b, n)[i] == c;
                if i < child_upto(b, m).len() {
                    assert(child_upto(b, m).contains(c));
                } else {
                    let k = i - child_upto(b, m).len();
                    assert(c == child_at(b, m, k));
                    assert(free_spec(b, m) && m < n && 0 <= k < 6 && c == child_at(b, m, k));
                }
            }
            if exists|sq: u64, k: int|
                sq < n && free_spec(b, sq) && 0 <= k < 6 && c == child_at(b, sq, k) {
                let (sq, k) = choose|sq: u64, k: int|
                    sq < n && free_spec(b, sq) && 0 <= k < 6 && c == child_at(b, sq, k);
                if sq < m {
                    assert(child_upto(b, m).contains(c));
                    let i = choose|i: int|
                        0 <= i < child_upto(b, m).len() && child_upto(b, m)[i] == c;
                    assert(child_upto(b, n)[i] == c);
                    assert(child_upto(b, n).contains(c));
                } else {
                    assert(sq == m);
                    let i = child_upto(b, m).len() + k;
                    assert(child_upto(b, n)[i] == c);
                    assert(child_upto(b, n).contains(c));
                }
            }
        } else {
            assert(child_upto(b, n) == child_upto(b, m));
            if exists|sq: u64, k: int|
                sq < n && free_spec(b, sq) && 0 <= k < 6 && c == child_at(b, sq, k) {
                let (sq, k) = choose|sq: u64, k: int|
                    sq < n && free_spec(b, sq) && 0 <= k < 6 && c == child_at(b, sq, k);
                assert(sq != m);
            }
        }
    }
}

/// Placing on a free cell and swapping yields a well-formed board with one
/// more stone, whatever the swap and whoever places.
pub proof fn lemma_child_wf(b: Board, player: Player, sq: u64, s: Swap)
    requires
        board_wf(b),
        free_spec(b, sq),
    ensures
        board_wf(swap_spec(play_at_spec(b, player, sq), s)),
        board_wf(play_at_spec(b, player, sq)),
        stones(swap_spec(play_at_spec(b, player, sq), s)) == stones(b) + 1,
        stones(play_at_spec(b, player, sq)) == stones(b) + 1,
{
    let p1 = b.player1;
    let p2 = b.player2;
    lemma_bit_basics(p1, p2, sq, sq);
    let p = play_at_spec(b, player, sq);
    match player {
        Player::Player1 => {
            lemma_set_free_bit(p1, p2, sq);
        },
        Player::Player2 => {
            assert((p2 | p1) == (p1 | p2) && p1 & p2 == 0 ==> p2 & p1 == 0) by (bit_vector);
            assert((p2 | p1) == (p1 | p2) && ((p2 | (1u64 << sq)) | p1) == ((p2 | p1) | (1u64
                << sq)) && (p1 | (p2 | (1u64 << sq))) == ((p2 | (1u64 << sq)) | p1)) by (bit_vector);
            lemma_set_free_bit(p2, p1, sq);
        },
    }
    lemma_bit_basics(p.player1, p.player2, sq, sq);
    let o1 = swap_offsets(s).0;
    let o2 = swap_offsets(s).1;
    lemma_swap_word_masks(p.player1, p.player2, o1, o2);
    lemma_swap_word_pop(occupied(p), o1, o2);
    let sw = swap_spec(p, s);
    assert(sw.player1 == swap_word(p.player1, o1, o2));
    assert(sw.player2 == swap_word(p.player2, o1, o2));
    assert(occupied(sw) == swap_word(occupied(p), o1, o2));
}

/// Exchanging two quadrant blocks stays within the board, keeps disjoint
/// words disjoint, distributes over the union, and undoes itself.
pub proof fn lemma_swap_word_masks(x: u64, y: u64, o1: u64, o2: u64)
    by (bit_vector)
    requires
        in_board(x),
        in_board(y),
        x & y == 0,
        (o1 == 0 && o2 == 3) || (o1 == 18 && o2 == 21) || (o1 == 0 && o2 == 18) || (o1 == 3 && o2
            == 21) || (o1 == 0 && o2 == 21) || (o1 == 3 && o2 == 18),
    ensures
        in_board(swap_word(x, o1, o2)),
        in_board(swap_word(y, o1, o2)),
        swap_word(x, o1, o2) & swap_word(y, o1, o2) == 0,
        swap_word(x, o1, o2) | swap_word(y, o1, o2) == swap_word(x | y, o1, o2),
        swap_word(swap_word(x, o1, o2), o1, o2) == x,
{
}

/// Exchanging two quadrant blocks moves stones without creating or
/// destroying any: the stone count is unchanged.
pub proof fn lemma_swap_word_pop(x: u64, o1: u64, o2: u64)
    requires
        in_board(x),
        (o1 == 0 && o2 == 3) || (o1 == 18 && o2 == 21) || (o1 == 0 && o2 == 18) || (o1 == 3 && o2
            == 21) || (o1 == 0 && o2 == 21) || (o1 == 3 && o2 == 18),
    ensures
        popcount36(swap_word(x, o1, o2)) == popcount36(x),
{
    let m1: u64 = QUADRANT_MASK << o1;
    let m2: u64 = QUADRANT_MASK << o2;
    let a: u64 = x & !(m1 | m2);
    let b1: u64 = x & m1;
    let b2: u64 = x & m2;
    let d: u64 = (o2 - o1) as u64;
    let s: u64 = swap_word(x, o1, o2);
    assert(x == (a | b1) | b2 && a & b1 == 0 && (a | b1) & b2 == 0 && s == (a | (b1 << d)) | (b2
        >> d) && a & (b1 << d) == 0 && (a | (b1 << d)) & (b2 >> d) == 0) by (bit_vector)
        requires
            m1 == QUADRANT_MASK << o1 && m2 == QUADRANT_MASK << o2 && a == x & !(m1 | m2) && b1 == x
                & m1 && b2 == x & m2 && d == (o2 - o1) as u64 && s == swap_word(x, o1, o2)
                && in_board(x) && ((o1 == 0 && o2 == 3) || (o1 == 18 && o2 == 21) || (o1 == 0 && o2
                == 18) || (o1 == 3 && o2 == 21) || (o1 == 0 && o2 == 21) || (o1 == 3 && o2 == 18)),
    ;
    assert(forall|k: u64|
        #![trigger bit(b1, k)]
        #![trigger bit(b2, k)]
        #![trigger bit(b2 >> d, k)]
        (k < d ==> !bit(b2, k)) && ((36 - d) as u64 <= k < 64 ==> !bit(b1, k)) && ((36 - d) as u64
            <= k < 64 ==> !bit(b2 >> d, k))) by (bit_vector)
        requires
            b1 == x & (QUADRANT_MASK << o1) && b2 == x & (QUADRANT_MASK << o2) && d == (o2
                - o1) as u64 && ((o1 == 0 && o2 == 3) || (o1 == 18 && o2 == 21) || (o1 == 0 && o2
                == 18) || (o1 == 3 && o2 == 21) || (o1 == 0 && o2 == 21) || (o1 == 3 && o2 == 18)),
    ;
    lemma_pop_disjoint(a, b1, 36);
    lemma_pop_disjoint(a | b1, b2, 36);
    lemma_pop_disjoint(a, b1 << d, 36);
    lemma_pop_disjoint(a | (b1 << d), b2 >> d, 36);
    // The moved-up block: its count window slides by `d`.
    lemma_pop_shl(b1, d, 36);
    lemma_pop_ext(b1, 36, (36 - d) as u64);
    // The moved-down block: no set bit sits below `d`, none is lost.
    lemma_pop_shr(b2, d, 36);
    lemma_pop_ext(b2 >> d, 36, (36 - d) as u64);
}

// --- win detection ---
/// The mask-and-shift row test the implementation runs.
pub open spec fn row_check(x: u64) -> bool {
    let nw: u64 = x & 0b001111_001111_001111_001111_001111_001111;
    let m: u64 = nw & (x >> 2);
    m & (m >> 1) & (m >> 2) != 0
}

/// Five in a row on one of the six rows: runs start at column 0 or 1.
pub open spec fn row_win(x: u64) -> bool {
    ||| x & (0x1Fu64 << 0) == (0x1Fu64 << 0)
    ||| x & (0x1Fu64 << 1) == (0x1Fu64 << 1)
    ||| x & (0x1Fu64 << 6) == (0x1Fu64 << 6)
    ||| x & (0x1Fu64 << 7) == (0x1Fu64 << 7)
    ||| x & (0x1Fu64 << 12) == (0x1Fu64 << 12)
    ||| x & (0x1Fu64 << 13) == (0x1Fu64 << 13)
    ||| x & (0x1Fu64 << 18) == (0x1Fu64 << 18)
    ||| x & (0x1Fu64 << 19) == (0x1Fu64 << 19)
    ||| x & (0x1Fu64 << 24) == (0x1Fu64 << 24)
    ||| x & (0x1Fu64 << 25) == (0x1Fu64 << 25)
    ||| x & (0x1Fu64 << 30) == (0x1Fu64 << 30)
    ||| x & (0x1Fu64 << 31) == (0x1Fu64 << 31)
}

/// The mask-and-shift column test the implementation runs.
pub open spec fn col_check(x: u64) -> bool {
    let m: u64 = x & (x >> 12);
    m & (m >> 6) & (m >> 12) != 0
}

/// Five in a column: runs start on row 0 or 1, any of the six columns.
pub open spec fn col_win(x: u64) -> bool {
    ||| x & (0x1041041u64 << 0) == (0x1041041u64 << 0)
    ||| x & (0x1041041u64 << 1) == (0x1041041u64 << 1)
    ||| x & (0x1041041u64 << 2) == (0x1041041u64 << 2)
    ||| x & (0x1041041u64 << 3) == (0x1041041u64 << 3)
    ||| x & (0x1041041u64 << 4) == (0x1041041u64 << 4)
    ||| x & (0x1041041u64 << 5) == (0x1041041u64 << 5)
    ||| x & (0x1041041u64 << 6) == (0x1041041u64 << 6)
    ||| x & (0x1041041u64 << 7) == (0x1041041u64 << 7)
    ||| x & (0x1041041u64 << 8) == (0x1041041u64 << 8)
    ||| x & (0x1041041u64 << 9) == (0x1041041u64 << 9)
    ||| x & (0x1041041u64 << 10) == (0x1041041u64 << 10)
    ||| x & (0x1041041u64 << 11) == (0x1041041u64 << 11)
}

/// The mask-and-shift test for down-left diagonals (step five).
pub open spec fn anti_check(x: u64) -> bool {
    let nw: u64 = x & 0b000011_000111_001110_011100_111000_110000;
    let m: u64 = nw & (nw >> 10);
    m & (m >> 5) & (m >> 10) != 0
}

/// Five on a down-left diagonal: runs start at rows 0 or 1, columns 4 or 5.
pub open spec fn anti_win(x: u64) -> bool {
    ||| x & (0x108421u64 << 4) == (0x108421u64 << 4)
    ||| x & (0x108421u64 << 5) == (0x108421u64 << 5)
    ||| x & (0x108421u64 << 10) == (0x108421u64 << 10)
    ||| x & (0x108421u64 << 11) == (0x108421u64 << 11)
}

/// The mask-and-shift test for down-right diagonals (step seven).
pub open spec fn diag_check(x: u64) -> bool {
    let nw: u64 = x & 0b110000_111000_011100_001110_000111_000011;
    let m: u64 = nw & (nw >> 14);
    m & (m >> 7) & (m >> 14) != 0
}

/// Five on a down-right diagonal: runs start at rows 0 or 1, columns 0 or 1.
pub open spec fn diag_win(x: u64) -> bool {
    ||| x & (0x10204081u64 << 0) == (0x10204081u64 << 0)
    ||| x & (0x10204081u64 << 1) == (0x10204081u64 << 1)
    ||| x & (0x10204081u64 << 6) == (0x10204081u64 << 6)
    ||| x & (0x10204081u64 << 7) == (0x10204081u64 << 7)
}

/// Five in a line, on any of the 32 genuine board lines.
pub open spec fn has_five(x: u64) -> bool {
    row_win(x) || col_win(x) || diag_win(x) || anti_win(x)
}

/// True when the given player holds five in a line.
pub open spec fn player_won_spec(b: Board, p: Player) -> bool {
    has_five(stones_of(b, p))
}

/// The bit-parallel win tests equal the line-by-line definition.
pub proof fn lemma_win_checks(x: u64)
    by (bit_vector)
    requires
        in_board(x),
    ensures
        row_check(x) == row_win(x),
        col_check(x) == col_win(x),
        diag_check(x) == diag_win(x),
        anti_check(x) == anti_win(x),
{
}

/// Win detection never counts runs that wrap in raw bit-index arithmetic:
/// five consecutive bit indices that leave their row, or a diagonal stride
/// whose start makes it cross a board edge, never form a win on their own.
pub proof fn lemma_no_wraparound_win(s: u64)
    by (bit_vector)
    ensures
        s <= 31 && s % 6 >= 2 ==> !has_five((0x1Fu64 << s)),
        s <= 7 && s % 6 >= 2 ==> !has_five((0x10204081u64 << s)),
        s <= 15 && s % 6 <= 3 ==> !has_five((0x108421u64 << s)),
{
}

/// The game's result, if the game is over: a full board is a draw,
/// otherwise five in a line wins, player 1 checked first.
pub open spec fn outcome_spec(b: Board) -> Option<Outcome> {
    if full_spec(b) {
        Some(Outcome::Draw)
    } else if player_won_spec(b, Player::Player1) {
        Some(Outcome::Player1Win)
    } else if player_won_spec(b, Player::Player2) {
        Some(Outcome::Player2Win)
    } else {
        None
    }
}

impl Board {
    /// Builds a board from a dense 6x6 grid: 1 marks player 1's stones,
    /// 2 player 2's, anything else an empty cell.
    pub fn new(array: [[u8; 6]; 6]) -> (r: Board)
        ensures
            board_wf(r),
            forall|i: int, j: int|
                0 <= i < 6 && 0 <= j < 6 ==> (bit(r.player1, (6 * i + j) as u64) <==> array@[i]@[j]
                    == 1) && (bit(r.player2, (6 * i + j) as u64) <==> array@[i]@[j] == 2),
    {
        let mut player1: u64 = 0;
        let mut player2: u64 = 0;
        proof {
            lemma_zero_bits();
        }
        let mut n: usize = 0;
        while n < 36
            invariant
                n <= 36,
                in_board(player1),
                in_board(player2),
                player1 & player2 == 0,
                forall|k: u64| n <= k < 64 ==> !bit(player1, k) && !bit(player2, k),
                forall|k: u64|
                    k < n ==> (bit(player1, k) <==> array@[k as int / 6]@[k as int % 6] == 1) && (
                    bit(player2, k) <==> array@[k as int / 6]@[k as int % 6] == 2),
            decreases 36 - n,
        {
            let i: usize = n / 6;
            let j: usize = n % 6;
            let sq: u64 = n as u64;
            proof {
                assert(n / 6 < 6 && 6 * (n / 6) + (n % 6) == n) by (nonlinear_arith)
                    requires
                        n < 36,
                ;
            }
            let cell: u8 = array[i][j];
            proof {
                lemma_bit_basics(player1, player2, sq, sq);
            }
            if cell == 1 {
                proof {
                    crate::bits::lemma_set_free_bit_masks(player1, player2, sq);
                }
                let ghost before: u64 = player1;
                player1 = player1 | (1u64 << sq);
                proof {
                    lemma_one_bit_update(player1, before, sq);
                }
            } else if cell == 2 {
                proof {
                    crate::bits::lemma_set_free_bit_masks(player2, player1, sq);
                }
                let ghost before: u64 = player2;
                player2 = player2 | (1u64 << sq);
                proof {
                    lemma_one_bit_update(player2, before, sq);
                    assert(player2 & player1 == 0 ==> player1 & player2 == 0) by (bit_vector);
                }
            }
            n = n + 1;
        }
        proof {
            assert forall|i: int, j: int| 0 <= i < 6 && 0 <= j < 6 implies (bit(
                player1,
                (6 * i + j) as u64,
            ) <==> array@[i]@[j] == 1) && (bit(player2, (6 * i + j) as u64) <==> array@[i]@[j]
                == 2) by {
                let k: u64 = (6 * i + j) as u64;
                assert(k < 36 && k as int / 6 == i && k as int % 6 == j) by (nonlinear_arith)
                    requires
                        0 <= i < 6 && 0 <= j < 6 && k == (6 * i + j) as u64,
                ;
            }
        }
        Board { player1, player2 }
    }

    /// The occupancy grid as 36 cell values in row order: 1 for player 1,
    /// 2 for player 2, 0 for an empty cell.
    pub fn grid(&self) -> (r: Vec<u8>)
        ensures
            r@.len() == 36,
            forall|k: u64| k < 36 ==> r@[k as int] == cell_value(*self, k),
    {
        let mut r: Vec<u8> = Vec::new();
        let mut n: u64 = 0;
        while n < 36
            invariant
                n <= 36,
                r@.len() == n,
                forall|k: u64| k < n ==> r@[k as int] == cell_value(*self, k),
            decreases 36 - n,
        {
            if self.player1 & (1u64 << n) != 0 {
                r.push(1);
            } else if self.player2 & (1u64 << n) != 0 {
                r.push(2);
            } else {
                r.push(0);
            }
            n = n + 1;
        }
        r
    }

    /// Checks the board invariant: no bit past the 36 cells and no cell
    /// claimed by both players.
    pub fn is_valid(self) -> (r: bool)
        ensures
            r == board_wf(self),
    {
        (self.player1 & !BOARD_MASK) == 0 && (self.player2 & !BOARD_MASK) == 0 && (self.player1
            & self.player2) == 0
    }

    /// True when every cell is occupied.
    pub fn is_draw(self) -> (r: bool)
        ensures
            r == full_spec(self),
    {
        self.player1 | self.player2 == BOARD_MASK
    }

    /// The mask of free cells.
    pub fn free_squares(self) -> (r: u64)
        ensures
            r == (!occupied(self) & BOARD_MASK),
    {
        !(self.player1 | self.player2) & BOARD_MASK
    }

    /// How many stones have been placed.
    pub fn turn_number(self) -> (r: u32)
        ensures
            r as int == stones(self),
    {
        let x = self.player1 | self.player2;
        let mut count: u32 = 0;
        let mut n: u64 = 0;
        while n < 36
            invariant
                n <= 36,
                count as int == pop_below(x, n),
            decreases 36 - n,
        {
            proof {
                lemma_pop_below_bound(x, n);
            }
            if x & (1u64 << n) != 0 {
                count = count + 1;
            }
            n = n + 1;
        }
        count
    }

    /// Whose turn it is: player 1 exactly when the stone count is even.
    pub fn turn(&self) -> (r: Player)
        ensures
            r == turn_spec(*self),
    {
        if self.turn_number() % 2 == 0 {
            Player::Player1
        } else {
            Player::Player2
        }
    }

    /// Places a stone for `player` on cell `square`.
    pub fn play_at(self, player: Player, square: u8) -> (r: Board)
        requires
            square < 36,
        ensures
            r == play_at_spec(self, player, square as u64),
    {
        let new_marble: u64 = 1u64 << (square as u64);
        match player {
            Player::Player1 => Board { player1: self.player1 | new_marble, player2: self.player2 },
            Player::Player2 => Board { player1: self.player1, player2: self.player2 | new_marble },
        }
    }

    /// Exchanges the two 3x3 quadrant blocks of the given pair, in both
    /// players' words alike.
    pub fn swap(self, swap: Swap) -> (r: Board)
        ensures
            r == swap_spec(self, swap),
    {
        let (offset1, offset2): (u64, u64) = match swap {
            Swap::TL_TR => (0, 3),
            Swap::BL_BR => (18, 21),
            Swap::TL_BL => (0, 18),
            Swap::TR_BR => (3, 21),
            Swap::TL_BR => (0, 21),
            Swap::TR_BL => (3, 18),
        };
        let mask1: u64 = QUADRANT_MASK << offset1;
        let mask2: u64 = QUADRANT_MASK << offset2;
        let player1 = (self.player1 & !(mask1 | mask2)) | (((self.player1 & mask1) >> offset1)
            << offset2) | (((self.player1 & mask2) >> offset2) << offset1);
        let player2 = (self.player2 & !(mask1 | mask2)) | (((self.player2 & mask1) >> offset1)
            << offset2) | (((self.player2 & mask2) >> offset2) << offset1);
        Board { player1, player2 }
    }

    /// True when the given player holds five in a line: on a row, a
    /// column, or either diagonal direction.  The masked shift tests never
    /// count runs that cross a board edge in raw bit order.
    pub fn player_won(&self, player: Player) -> (r: bool)
        requires
            board_wf(*self),
        ensures
            r == player_won_spec(*self, player),
    {
        let board: u64 = match player {
            Player::Player1 => self.player1,
            Player::Player2 => self.player2,
        };
        proof {
            lemma_win_checks(board);
        }
        // Rows
        let nw_row: u64 = board & 0b001111_001111_001111_001111_001111_001111;
        let m_row: u64 = nw_row & (board >> 2);
        if m_row & (m_row >> 1) & (m_row >> 2) != 0 {
            return true;
        }
        // Columns
        let m_col: u64 = board & (board >> 12);
        if m_col & (m_col >> 6) & (m_col >> 12) != 0 {
            return true;
        }
        // Down-left diagonals
        let nw_anti: u64 = board & 0b000011_000111_001110_011100_111000_110000;
        let m_anti: u64 = nw_anti & (nw_anti >> 10);
        if m_anti & (m_anti >> 5) & (m_anti >> 10) != 0 {
            return true;
        }
        // Down-right diagonals
        let nw_diag: u64 = board & 0b110000_111000_011100_001110_000111_000011;
        let m_diag: u64 = nw_diag & (nw_diag >> 14);
        if m_diag & (m_diag >> 7) & (m_diag >> 14) != 0 {
            return true;
        }
        false
    }

    /// The game's result, if the game is over: a full board is a draw,
    /// otherwise five in a line wins, player 1 checked first.
    pub fn outcome(self) -> (r: Option<Outcome>)
        requires
            board_wf(self),
        ensures
            r == outcome_spec(self),
    {
        if self.is_draw() {
            Some(Outcome::Draw)
        } else if self.player_won(Player::Player1) {
            Some(Outcome::Player1Win)
        } else if self.player_won(Player::Player2) {
            Some(Outcome::Player2Win)
        } else {
            None
        }
    }

    /// Returns every board one legal move away, in enumeration order:
    /// ascending free cell, then the fixed swap order.  With
    /// `filter_forced_moves` set and some cell where the opponent could win
    /// next turn by placing there, the answer is instead exactly the six
    /// swapped variants of placing on the least such cell: the must-block
    /// pruning heuristic.
    pub fn children(self, filter_forced_moves: bool) -> (r: Vec<Board>)
        requires
            board_wf(self),
        ensures
            !filter_forced_moves ==> r@ == child_boards(self),
            (filter_forced_moves && (exists|q: u64| free_spec(self, q) && must_block(self, q)))
                ==> (exists|sq: u64|
                free_spec(self, sq) && must_block(self, sq) && r@ == six_children(self, sq) && (
                forall|q: u64| q < sq ==> !(free_spec(self, q) && must_block(self, q)))),
            (filter_forced_moves && !(exists|q: u64| free_spec(self, q) && must_block(self, q)))
                ==> r@ == child_boards(self),
    {
        let player = self.turn();
        let opponent = player.opponent();
        let swaps = Swap::iterator();
        let mut children: Vec<Board> = Vec::new();
        let mut square: u64 = 0;
        while square < 36
            invariant
                board_wf(self),
                square <= 36,
                swaps@ == all_swaps(),
                player == turn_spec(self),
                opponent == turn_spec(self).opponent_spec(),
                children@ == child_upto(self, square),
                filter_forced_moves ==> (forall|q: u64|
                    q < square ==> !(free_spec(self, q) && #[trigger] must_block(self, q))),
            decreases 36 - square,
        {
            if (self.player1 | self.player2) & (1u64 << square) == 0 {
                let placed = self.play_at(player, square as u8);
                let mut k: usize = 0;
                while k < 6
                    invariant
                        board_wf(self),
                        square < 36,
                        free_spec(self, square),
                        k <= 6,
                        swaps@ == all_swaps(),
                        player == turn_spec(self),
                        opponent == turn_spec(self).opponent_spec(),
                        placed == play_at_spec(self, turn_spec(self), square),
                        children@ == child_upto(self, square) + Seq::new(
                            k as nat,
                            |i: int| child_at(self, square, i),
                        ),
                        filter_forced_moves ==> (forall|q: u64|
                            q < square ==> !(free_spec(self, q) && #[trigger] must_block(self, q))),
                        filter_forced_moves ==> (forall|kk: int|
                            0 <= kk < k ==> !(#[trigger] opponent_wins_at(self, square, kk))),
                    decreases 6 - k,
                {
                    let child = placed.swap(swaps[k]);
                    children.push(child);
                    proof {
                        assert(children@ =~= child_upto(self, square) + Seq::new(
                            (k + 1) as nat,
                            |i: int| child_at(self, square, i),
                        ));
                    }
                    if filter_forced_moves {
                        let threat = self.play_at(opponent, square as u8).swap(swaps[k]);
                        proof {
                            lemma_child_wf(self, opponent, square, swaps@[k as int]);
                        }
                        if threat.player_won(opponent) {
                            proof {
                                assert(opponent_wins_at(self, square, k as int));
                                assert(must_block(self, square));
                            }
                            let mut blocking: Vec<Board> = Vec::new();
                            let mut m: usize = 0;
                            while m < 6
                                invariant
                                    board_wf(self),
                                    square < 36,
                                    free_spec(self, square),
                                    m <= 6,
                                    swaps@ == all_swaps(),
                                    placed == play_at_spec(self, turn_spec(self), square),
                                    must_block(self, square),
                                    filter_forced_moves ==> (forall|q: u64|
                                        q < square ==> !(free_spec(self, q)
                                            && #[trigger] must_block(self, q))),
                                    blocking@ == Seq::new(
                                        m as nat,
                                        |i: int| child_at(self, square, i),
                                    ),
                                decreases 6 - m,
                            {
                                blocking.push(placed.swap(swaps[m]));
                                proof {
                                    assert(blocking@ =~= Seq::new(
                                        (m + 1) as nat,
                                        |i: int| child_at(self, square, i),
                                    ));
                                }
                                m = m + 1;
                            }
                            proof {
                                assert(blocking@ =~= six_children(self, square));
                                assert(free_spec(self, square) && must_block(self, square)
                                    && blocking@ == six_children(self, square) && (forall|q: u64|
                                    q < square ==> !(free_spec(self, q) && must_block(self, q))));
                            }
                            return blocking;
                        }
                    }
                    k = k + 1;
                }
                proof {
                    assert(Seq::new(6, |i: int| child_at(self, square, i)) =~= six_children(
                        self,
                        square,
                    ));
                    assert(children@ =~= child_upto(self, (square + 1) as u64));
                    if filter_forced_moves {
                        assert(!must_block(self, square)) by {
                            if must_block(self, square) {
                                let kk = choose|kk: int|
                                    0 <= kk < 6 && #[trigger] opponent_wins_at(self, square, kk);
                                assert(!opponent_wins_at(self, square, kk));
                            }
                        }
                    }
                }
            } else {
                proof {
                    assert(children@ =~= child_upto(self, (square + 1) as u64));
                }
            }
            square = square + 1;
        }
        proof {
            if filter_forced_moves {
                assert(!(exists|q: u64| free_spec(self, q) && must_block(self, q))) by {
                    if exists|q: u64| free_spec(self, q) && must_block(self, q) {
                        let q = choose|q: u64| free_spec(self, q) && must_block(self, q);
                        assert(q < 36);
                        assert(!(free_spec(self, q) && must_block(self, q)));
                    }
                }
            }
        }
        children
    }

    /// Returns the legal actions, aligned index by index with the boards
    /// `children` returns when no filtering is asked for.
    pub fn actions(self) -> (r: Vec<Action>)
        requires
            board_wf(self),
        ensures
            r@ == legal_actions(self),
    {
        let swaps = Swap::iterator();
        let mut actions: Vec<Action> = Vec::new();
        let mut square: u64 = 0;
        while square < 36
            invariant
                square <= 36,
                swaps@ == all_swaps(),
                actions@ == action_upto(self, square),
            decreases 36 - square,
        {
            if (self.player1 | self.player2) & (1u64 << square) == 0 {
                let mut k: usize = 0;
                while k < 6
                    invariant
                        square < 36,
                        free_spec(self, square),
                        k <= 6,
                        swaps@ == all_swaps(),
                        actions@ == action_upto(self, square) + Seq::new(
                            k as nat,
                            |i: int| action_at(self, square, i),
                        ),
                    decreases 6 - k,
                {
                    actions.push(Action::new(square as u8, swaps[k]));
                    proof {
                        assert(actions@ =~= action_upto(self, square) + Seq::new(
                            (k + 1) as nat,
                            |i: int| action_at(self, square, i),
                        ));
                    }
                    k = k + 1;
                }
                proof {
                    assert(Seq::new(6, |i: int| action_at(self, square, i)) =~= six_actions(
                        self,
                        square,
                    ));
                    assert(actions@ =~= action_upto(self, (square + 1) as u64));
                }
            } else {
                proof {
                    assert(actions@ =~= action_upto(self, (square + 1) as u64));
                }
            }
            square = square + 1;
        }
        actions
    }

    /// Recovers the action leading from this board to `next_state`, which
    /// must be one move away.
    pub fn action_to(self, next_state: Board) -> (r: Action)
        requires
            board_wf(self),
            child_boards(self).contains(next_state),
        ensures
            legal_action(self, r),
            apply_action_spec(self, r) == next_state,
    {
        let player = self.turn();
        let swaps = Swap::iterator();
        let mut square: u64 = 0;
        while square < 36
            invariant
                board_wf(self),
                child_boards(self).contains(next_state),
                square <= 36,
                swaps@ == all_swaps(),
                player == turn_spec(self),
                forall|q: u64, k: int|
                    q < square && free_spec(self, q) && 0 <= k < 6 ==> child_at(self, q, k)
                        != next_state,
            decreases 36 - square,
        {
            if (self.player1 | self.player2) & (1u64 << square) == 0 {
                let placed = self.play_at(player, square as u8);
                let mut k: usize = 0;
                while k < 6
                    invariant
                        square < 36,
                        free_spec(self, square),
                        k <= 6,
                        swaps@ == all_swaps(),
                        player == turn_spec(self),
                        placed == play_at_spec(self, turn_spec(self), square),
                        forall|i: int| 0 <= i < k ==> child_at(self, square, i) != next_state,
                    decreases 6 - k,
                {
                    let child = placed.swap(swaps[k]);
                    if child == next_state {
                        return Action::new(square as u8, swaps[k]);
                    }
                    k = k + 1;
                }
            }
            square = square + 1;
        }
        proof {
            lemma_child_upto_contains(self, 36, next_state);
        }
        vstd::pervasive::unreached()
    }

    /// The canonical form of this board: the smallest board, under the
    /// fixed total order on occupancy pairs, among its eight symmetric
    /// transforms.  Symmetric boards share their canonical form.
    pub fn canonical(self) -> (r: Board)
        requires
            board_wf(self),
        ensures
            r == canonical_spec(self),
            board_wf(r),
    {
        let vertical = flip_vertical(self);
        let mut cands: Vec<Board> = Vec::new();
        cands.push(self);
        cands.push(vertical);
        cands.push(flip_horizontal(self));
        cands.push(flip_diagonal(self));
        cands.push(flip_antidiagonal(self));
        cands.push(flip_antidiagonal(vertical));
        cands.push(flip_horizontal(vertical));
        cands.push(flip_diagonal(vertical));
        proof {
            assert(cands@ =~= transforms(self));
        }
        let mut best: Board = cands[0];
        let mut i: usize = 1;
        while i < 8
            invariant
                cands@ == transforms(self),
                1 <= i <= 8,
                best == seq_min(transforms(self), i as int),
            decreases 8 - i,
        {
            let c = cands[i];
            if c.player1 < best.player1 || (c.player1 == best.player1 && c.player2 <= best.player2)
            {
                best = c;
            }
            i = i + 1;
        }
        proof {
            lemma_canonical_wf(self);
        }
        best
    }

    /// Applies an action: the mover places on the action's cell, then the
    /// action's quadrant pair is exchanged.
    pub fn apply_action(self, action: Action) -> (r: Board)
        requires
            action.square < 36,
        ensures
            r == apply_action_spec(self, action),
    {
        self.play_at(self.turn(), action.square).swap(action.swap)
    }
}

impl Default for Board {
    /// The empty board.
    fn default() -> (r: Board)
        ensures
            r == empty_board(),
    {
        Board { player1: 0, player2: 0 }
    }
}

/// The value shown for one cell: 1 or 2 for a stone, 0 for empty.
pub open spec fn cell_value(b: Board, k: u64) -> u8 {
    if bit(b.player1, k) {
        1u8
    } else if bit(b.player2, k) {
        2u8
    } else {
        0u8
    }
}

/// The zero word has no bits set, lies within the board, and is disjoint
/// from everything.
proof fn lemma_zero_bits()
    by (bit_vector)
    ensures
        forall|k: u64| !bit(0u64, k),
        in_board(0u64),
        0u64 & 0u64 == 0u64,
{
}

/// Setting bit `sq` changes no other bit.
proof fn lemma_one_bit_update(after: u64, before: u64, sq: u64)
    by (bit_vector)
    requires
        sq < 64,
        after == before | (1u64 << sq),
    ensures
        forall|k: u64| #![trigger bit(after, k)] k < 64 && k != sq ==> bit(after, k) == bit(before, k),
        bit(after, sq),
{
}

} // verus!
