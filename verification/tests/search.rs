use std::time::Duration;

use pentarust::alpha_beta::eval;
use pentarust::alpha_beta::negamax;
use pentarust::alpha_beta::search;
use pentarust::alpha_beta::TranspositionTable;
use pentarust::best_move;
use pentarust::choose_move;
use pentarust::clock::SearchClock;
use pentarust::game::Action;
use pentarust::game::Board;
use pentarust::game::Player;
use pentarust::game::Swap;

#[test]
fn negamax_test1() {
    let board = Board::new([
        [1, 2, 0, 0, 0, 0],
        [1, 2, 0, 1, 2, 0],
        [1, 2, 0, 0, 0, 0],
        [0, 0, 0, 0, 0, 0],
        [0, 0, 0, 0, 0, 0],
        [0, 0, 0, 0, 0, 0],
    ]);

    assert_eq!(
        negamax(
            board,
            3,
            -1_000_000,
            1_000_000,
            &mut TranspositionTable::new(1),
            &SearchClock::unarmed()
        )
        .unwrap(),
        999_991
    );
}

#[test]
fn negamax_test2() {
    let board = Board::new([
        [1, 0, 0, 1, 2, 1],
        [0, 1, 0, 0, 2, 0],
        [0, 0, 0, 0, 2, 0],
        [0, 0, 0, 1, 1, 0],
        [0, 2, 0, 0, 2, 0],
        [0, 0, 0, 0, 0, 0],
    ]);

    assert_eq!(
        negamax(
            board,
            3,
            -1_000_000,
            1_000_000,
            &mut TranspositionTable::new(1),
            &SearchClock::unarmed()
        )
        .unwrap(),
        999_988
    );
}

// A terminal position scores exactly, whatever the cache holds.
#[test]
fn negamax_terminal_scores() {
    let won = Board::new([
        [1, 1, 1, 1, 1, 0],
        [2, 2, 2, 2, 0, 0],
        [0, 0, 0, 0, 0, 0],
        [0, 0, 0, 0, 0, 0],
        [0, 0, 0, 0, 0, 0],
        [0, 0, 0, 0, 0, 0],
    ]);
    // Nine stones: player 2 to move, player 1 has won.
    let v = negamax(
        won,
        5,
        -1_000_000,
        1_000_000,
        &mut TranspositionTable::new(4),
        &SearchClock::unarmed(),
    )
    .unwrap();
    assert_eq!(v, -(1_000_000 - 9));
}

// With four in a row and one open completing cell, a shallow search finds
// the win and reports a near-maximal score.
#[test]
fn search_finds_forced_win() {
    let board = Board::new([
        [1, 2, 0, 0, 0, 0],
        [1, 2, 0, 1, 2, 0],
        [1, 2, 0, 0, 0, 0],
        [0, 0, 0, 0, 0, 0],
        [0, 0, 0, 0, 0, 0],
        [0, 0, 0, 0, 0, 0],
    ]);
    let value = negamax(
        board,
        1,
        -1_000_000,
        1_000_000,
        &mut TranspositionTable::new(1),
        &SearchClock::unarmed(),
    )
    .unwrap();
    assert!(value > 999_900);

    let mut table = TranspositionTable::new(64);
    let action = search(board, Duration::from_millis(2_000), &mut table);
    let after = board.apply_action(action);
    assert!(after.player_won(Player::Player1));
}

// The canonical empty board's opening response: place on the eighth cell
// (row 1, column 1) and exchange the two bottom quadrants.
#[test]
fn empty_board_opening() {
    let mut table = TranspositionTable::new(16);
    let action = best_move(Board::default(), Duration::from_millis(10), &mut table);
    assert_eq!(action, Action::new(7, Swap::BL_BR));

    let packed = choose_move(0, 0, &mut table);
    assert_eq!(packed, 0x3020101);
    // Decode: column 1, row 1, quadrants 2 and 3, player identifier 0.
    assert_eq!(packed & 0xFF, 1);
    assert_eq!((packed >> 8) & 0xFF, 1);
    assert_eq!((packed >> 16) & 0xFF, 2);
    assert_eq!((packed >> 24) & 0xFF, 3);
    assert_eq!((packed >> 32) & 1, 0);
}

// With the clock unarmed and the cache's read path off, the search value
// is a function of position, depth and window alone: two runs agree.
#[test]
fn negamax_deterministic() {
    let board = Board::new([
        [1, 0, 0, 0, 0, 0],
        [0, 2, 0, 0, 0, 0],
        [0, 0, 1, 0, 0, 0],
        [0, 0, 0, 2, 0, 0],
        [0, 0, 0, 0, 0, 0],
        [0, 0, 0, 0, 0, 0],
    ]);
    let first = negamax(
        board,
        2,
        -1_000_000,
        1_000_000,
        &mut TranspositionTable::new(7),
        &SearchClock::unarmed(),
    );
    let second = negamax(
        board,
        2,
        -1_000_000,
        1_000_000,
        &mut TranspositionTable::new(1024),
        &SearchClock::unarmed(),
    );
    assert_eq!(first, second);
    assert!(first.is_some());
}

#[test]
fn eval_test() {
    // Player 1 on one privileged cell: a bonus from player 1's
    // perspective, negated because one stone leaves player 2 to move.
    let board = Board::new([
        [0, 0, 0, 0, 0, 0],
        [0, 0, 0, 0, 0, 0],
        [0, 0, 0, 0, 0, 0],
        [0, 0, 0, 0, 0, 0],
        [0, 0, 0, 0, 1, 0],
        [0, 0, 0, 0, 0, 0],
    ]);
    assert_eq!(eval(board), -100);

    let balanced = Board::new([
        [0, 0, 0, 0, 0, 0],
        [0, 0, 0, 0, 1, 0],
        [0, 0, 0, 0, 0, 0],
        [0, 0, 0, 0, 0, 0],
        [0, 2, 0, 0, 0, 0],
        [0, 0, 0, 0, 0, 0],
    ]);
    assert_eq!(eval(balanced), 0);

    let two_cells = Board::new([
        [0, 0, 0, 0, 0, 0],
        [0, 0, 0, 0, 1, 0],
        [0, 0, 0, 0, 0, 0],
        [0, 0, 0, 0, 0, 0],
        [0, 1, 0, 0, 0, 0],
        [0, 0, 2, 0, 0, 0],
    ]);
    // Three stones: player 2 to move; raw score 200 becomes -200.
    assert_eq!(eval(two_cells), -200);
}
