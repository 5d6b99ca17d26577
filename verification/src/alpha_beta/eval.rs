//! The static evaluation used at search-depth cutoffs.
use vstd::prelude::*;

use crate::game::board::turn_spec;
use crate::game::board::Board;
use crate::game::player::Player;

verus! {

/// The bonus one privileged center cell is worth.
pub const CENTER_BONUS: i32 = 100;

/// The four privileged center cells, one per quadrant.
pub open spec fn center_masks() -> Seq<u64> {
    seq![
        0b000000_010000_000000_000000_000000_000000u64,
        0b000000_000010_000000_000000_000000_000000u64,
        0b000000_000000_000000_000000_010000_000000u64,
        0b000000_000000_000000_000000_000000_000010u64,
    ]
}

/// What one center cell contributes: the bonus if player 1 holds it, its
/// negation if player 2 does, nothing otherwise.
pub open spec fn center_term(b: Board, c: u64) -> int {
    if b.player1 & c != 0 {
        CENTER_BONUS as int
    } else if b.player2 & c != 0 {
        -(CENTER_BONUS as int)
    } else {
        0
    }
}

/// The static score from the mover's perspective: the sum of the four
/// center terms, negated when player 2 is to move.
pub open spec fn eval_spec(b: Board) -> int {
    let raw = center_term(b, center_masks()[0]) + center_term(b, center_masks()[1]) + center_term(
        b,
        center_masks()[2],
    ) + center_term(b, center_masks()[3]);
    if turn_spec(b) == Player::Player1 {
        raw
    } else {
        -raw
    }
}

/// Scores a position without searching: a fixed bonus for each privileged
/// center cell player 1 holds, the same penalty for each one player 2
/// holds, from the perspective of the player to move.
pub fn eval(board: Board) -> (r: i32)
    ensures
        r as int == eval_spec(board),
        -400 <= r <= 400,
{
    let mut value: i32 = 0;
    let c0: u64 = 0b000000_010000_000000_000000_000000_000000;
    let c1: u64 = 0b000000_000010_000000_000000_000000_000000;
    let c2: u64 = 0b000000_000000_000000_000000_010000_000000;
    let c3: u64 = 0b000000_000000_000000_000000_000000_000010;
    if board.player1 & c0 != 0 {
        value = value + CENTER_BONUS;
    } else if board.player2 & c0 != 0 {
        value = value - CENTER_BONUS;
    }
    if board.player1 & c1 != 0 {
        value = value + CENTER_BONUS;
    } else if board.player2 & c1 != 0 {
        value = value - CENTER_BONUS;
    }
    if board.player1 & c2 != 0 {
        value = value + CENTER_BONUS;
    } else if board.player2 & c2 != 0 {
        value = value - CENTER_BONUS;
    }
    if board.player1 & c3 != 0 {
        value = value + CENTER_BONUS;
    } else if board.player2 & c3 != 0 {
        value = value - CENTER_BONUS;
    }
    if board.turn() == Player::Player1 {
        value
    } else {
        -value
    }
}

} // verus!
