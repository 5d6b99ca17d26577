//! Decision core of an engine for a two-player game on a 6x6 grid made of
//! four 3x3 quadrants: a move places a stone and then exchanges one pair of
//! quadrants.  The crate holds the bit-packed board model with win detection
//! and symmetry canonicalization, an alpha-beta searcher with a transposition
//! cache, a Monte Carlo tree searcher, and the helpers an opening-book
//! builder needs.
use vstd::prelude::*;

use std::time::Duration;

pub mod alpha_beta;
pub mod bits;
pub mod book;
pub mod clock;
pub mod fixed;
pub mod game;
pub mod mcts;
pub mod rng;

pub use game::board::Board;

use crate::alpha_beta::transposition_table::TranspositionTable;
use crate::game::action::Action;
use crate::game::board::board_wf;
use crate::game::board::empty_board;
use crate::game::board::legal_action;
use crate::game::board::stones;
use crate::game::board::turn_spec;
use crate::game::player::Player;
use crate::game::swap::Swap;

verus! {

/// The wire identifiers of the two quadrants a swap exchanges: 0 top left,
/// 1 top right, 2 bottom left, 3 bottom right.
pub open spec fn quadrant_ids(s: Swap) -> (u64, u64) {
    match s {
        Swap::TL_TR => (0u64, 1u64),
        Swap::BL_BR => (2u64, 3u64),
        Swap::TL_BL => (0u64, 2u64),
        Swap::TR_BR => (1u64, 3u64),
        Swap::TL_BR => (0u64, 3u64),
        Swap::TR_BL => (1u64, 2u64),
    }
}

/// The packed reply sent across the native boundary: bits 0 to 7 the
/// target column, 8 to 15 the target row, 16 to 23 and 24 to 31 the two
/// exchanged quadrants, bit 32 the mover's identifier.
pub open spec fn packed_move(b: Board, a: Action) -> u64 {
    let x = (a.square % 6) as u64;
    let y = (a.square / 6) as u64;
    let q = quadrant_ids(a.swap);
    let pid: u64 = if turn_spec(b) == Player::Player1 {
        0u64
    } else {
        1u64
    };
    x | (y << 8) | (q.0 << 16) | (q.1 << 24) | (pid << 32)
}

/// Chooses an action under the caller's time budget.  The transposition
/// table is process-scoped state the caller passes in by reference, so one
/// long-lived cache can serve many move requests.
pub fn best_move(board: Board, search_time: Duration, transpo_table: &mut TranspositionTable) -> (r:
    Action)
    requires
        board_wf(board),
        stones(board) < 36,
        old(transpo_table).wf(),
    ensures
        final(transpo_table).wf(),
        final(transpo_table).capacity() == old(transpo_table).capacity(),
        final(transpo_table).lookups() == old(transpo_table).lookups(),
        legal_action(board, r),
        board == empty_board() ==> r == (Action { square: 7, swap: Swap::BL_BR }),
{
    alpha_beta::search::search(board, search_time, transpo_table)
}

/// Computes the reply for the host process: builds the board from the two
/// raw occupancy words, searches under the fixed real-time budget, and
/// packs the chosen legal action into the wire layout.  On the empty board
/// the reply is exactly the tabulated opening: place on cell seven (row
/// one, column one) and exchange the two bottom quadrants.
pub fn choose_move(player1: u64, player2: u64, transpo_table: &mut TranspositionTable) -> (r: u64)
    requires
        board_wf((Board { player1, player2 })),
        stones((Board { player1, player2 })) < 36,
        old(transpo_table).wf(),
    ensures
        final(transpo_table).wf(),
        final(transpo_table).capacity() == old(transpo_table).capacity(),
        exists|a: Action|
            legal_action((Board { player1, player2 }), a) && r == packed_move(
                (Board { player1, player2 }),
                a,
            ),
        player1 == 0 && player2 == 0 ==> r == 0x3020101,
{
    let board = Board { player1, player2 };
    let action = best_move(board, Duration::from_millis(1_800), transpo_table);
    let x = (action.square % 6) as u64;
    let y = (action.square / 6) as u64;
    let (a_swap, b_swap): (u64, u64) = match action.swap {
        Swap::TL_TR => (0, 1),
        Swap::BL_BR => (2, 3),
        Swap::TL_BL => (0, 2),
        Swap::TR_BR => (1, 3),
        Swap::TL_BR => (0, 3),
        Swap::TR_BL => (1, 2),
    };
    let player_id: u64 = match board.turn() {
        Player::Player1 => 0,
        Player::Player2 => 1,
    };
    let packed = x | (y << 8) | (a_swap << 16) | (b_swap << 24) | (player_id << 32);
    proof {
        assert((a_swap, b_swap) == quadrant_ids(action.swap));
        assert(packed == packed_move(board, action));
        if player1 == 0 && player2 == 0 {
            assert(board == empty_board());
            assert(0u64 | 0u64 == 0u64 && crate::bits::popcount36(0u64) == 0) by (bit_vector);
            assert(action == (Action { square: 7, swap: Swap::BL_BR }));
            assert(1u64 | (1u64 << 8) | (2u64 << 16) | (3u64 << 24) | (0u64 << 32) == 0x3020101)
                by (bit_vector);
        }
    }
    packed
}

} // verus!
