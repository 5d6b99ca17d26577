use pentarust::game::Action;
use pentarust::game::Board;
use pentarust::game::Outcome;
use pentarust::game::Player;
use pentarust::game::Swap;

#[test]
fn new_test() {
    assert_eq!(
        Board::new([
            [0, 0, 0, 0, 0, 0],
            [0, 0, 0, 0, 0, 0],
            [0, 0, 0, 0, 0, 0],
            [0, 0, 0, 0, 0, 0],
            [0, 0, 0, 0, 0, 0],
            [0, 0, 0, 0, 0, 0]
        ]),
        Board {
            player1: 0,
            player2: 0,
        }
    );

    assert_eq!(
        Board::new([
            [0, 1, 0, 0, 0, 0],
            [0, 0, 0, 0, 0, 0],
            [0, 0, 0, 0, 0, 0],
            [0, 0, 0, 0, 0, 0],
            [0, 0, 0, 2, 0, 0],
            [0, 0, 0, 0, 0, 0]
        ]),
        Board {
            player1: 0x0_0000_0002,
            player2: 0x0_0800_0000,
        }
    );
}

#[test]
fn board_new_test() {
    assert_eq!(
        Board::new([
            [0, 0, 0, 0, 0, 0],
            [0, 0, 0, 0, 0, 0],
            [0, 0, 0, 0, 0, 0],
            [0, 0, 0, 0, 0, 0],
            [0, 0, 0, 0, 0, 0],
            [0, 0, 0, 0, 0, 0]
        ]),
        Board {
            player1: 0,
            player2: 0,
        }
    );

    assert_eq!(
        Board::new([
            [0, 1, 0, 0, 0, 0],
            [0, 0, 0, 0, 0, 0],
            [0, 0, 0, 0, 0, 0],
            [0, 0, 0, 0, 0, 0],
            [0, 0, 0, 2, 0, 0],
            [0, 0, 0, 0, 0, 0]
        ]),
        Board {
            player1: 0x0_0000_0002,
            player2: 0x0_0800_0000,
        }
    );
}

#[test]
fn turn_test() {
    assert_eq!(
        Board::new([
            [0, 0, 0, 0, 0, 0],
            [0, 0, 0, 0, 0, 0],
            [0, 0, 0, 0, 0, 0],
            [0, 0, 0, 0, 0, 0],
            [0, 0, 0, 0, 0, 0],
            [0, 0, 0, 0, 0, 0]
        ])
        .turn(),
        Player::Player1
    );

    assert_eq!(
        Board::new([
            [0, 0, 0, 0, 0, 0],
            [0, 0, 0, 0, 0, 0],
            [0, 0, 1, 0, 0, 0],
            [0, 0, 0, 0, 0, 0],
            [0, 0, 0, 0, 0, 0],
            [0, 0, 0, 0, 0, 0]
        ])
        .turn(),
        Player::Player2
    );
}

#[test]
fn board_turn_test() {
    assert_eq!(
        Board::new([
            [0, 0, 0, 0, 0, 0],
            [0, 0, 0, 0, 0, 0],
            [0, 0, 0, 0, 0, 0],
            [0, 0, 0, 0, 0, 0],
            [0, 0, 0, 0, 0, 0],
            [0, 0, 0, 0, 0, 0]
        ])
        .turn(),
        Player::Player1
    );

    assert_eq!(
        Board::new([
            [0, 0, 0, 0, 0, 0],
            [0, 0, 0, 0, 0, 0],
            [0, 0, 1, 0, 0, 0],
            [0, 0, 0, 0, 0, 0],
            [0, 0, 0, 0, 0, 0],
            [0, 0, 0, 0, 0, 0]
        ])
        .turn(),
        Player::Player2
    );
}

#[test]
fn play_at_test() {
    assert_eq!(
        Board::new([
            [0, 0, 0, 0, 0, 0],
            [0, 0, 0, 0, 0, 0],
            [0, 0, 0, 0, 0, 0],
            [0, 0, 0, 0, 0, 0],
            [0, 0, 0, 0, 0, 0],
            [0, 0, 0, 0, 0, 0]
        ])
        .play_at(Player::Player1, 7),
        Board::new([
            [0, 0, 0, 0, 0, 0],
            [0, 1, 0, 0, 0, 0],
            [0, 0, 0, 0, 0, 0],
            [0, 0, 0, 0, 0, 0],
            [0, 0, 0, 0, 0, 0],
            [0, 0, 0, 0, 0, 0]
        ])
    );

    assert_eq!(
        Board::new([
            [1, 0, 0, 0, 0, 0],
            [0, 0, 0, 0, 0, 0],
            [0, 0, 0, 0, 0, 0],
            [0, 0, 0, 0, 0, 0],
            [0, 0, 0, 0, 0, 0],
            [0, 0, 0, 0, 0, 0]
        ])
        .play_at(Player::Player2, 7),
        Board::new([
            [1, 0, 0, 0, 0, 0],
            [0, 2, 0, 0, 0, 0],
            [0, 0, 0, 0, 0, 0],
            [0, 0, 0, 0, 0, 0],
            [0, 0, 0, 0, 0, 0],
            [0, 0, 0, 0, 0, 0]
        ])
    );
}

#[test]
fn board_play_at_test() {
    let empty = Board::new([
        [0, 0, 0, 0, 0, 0],
        [0, 0, 0, 0, 0, 0],
        [0, 0, 0, 0, 0, 0],
        [0, 0, 0, 0, 0, 0],
        [0, 0, 0, 0, 0, 0],
        [0, 0, 0, 0, 0, 0],
    ]);
    assert_eq!(
        empty.play_at(empty.turn(), 7),
        Board::new([
            [0, 0, 0, 0, 0, 0],
            [0, 1, 0, 0, 0, 0],
            [0, 0, 0, 0, 0, 0],
            [0, 0, 0, 0, 0, 0],
            [0, 0, 0, 0, 0, 0],
            [0, 0, 0, 0, 0, 0]
        ])
    );

    let one_stone = Board::new([
        [1, 0, 0, 0, 0, 0],
        [0, 0, 0, 0, 0, 0],
        [0, 0, 0, 0, 0, 0],
        [0, 0, 0, 0, 0, 0],
        [0, 0, 0, 0, 0, 0],
        [0, 0, 0, 0, 0, 0],
    ]);
    assert_eq!(
        one_stone.play_at(one_stone.turn(), 7),
        Board::new([
            [1, 0, 0, 0, 0, 0],
            [0, 2, 0, 0, 0, 0],
            [0, 0, 0, 0, 0, 0],
            [0, 0, 0, 0, 0, 0],
            [0, 0, 0, 0, 0, 0],
            [0, 0, 0, 0, 0, 0]
        ])
    );
}

#[test]
fn swap_test() {
    assert_eq!(
        Board::new([
            [1, 0, 0, 0, 0, 0],
            [0, 0, 0, 0, 0, 0],
            [0, 0, 0, 0, 0, 0],
            [0, 0, 0, 0, 0, 0],
            [0, 0, 0, 0, 0, 0],
            [0, 0, 0, 0, 0, 0]
        ])
        .swap(Swap::TL_BL),
        Board::new([
            [0, 0, 0, 0, 0, 0],
            [0, 0, 0, 0, 0, 0],
            [0, 0, 0, 0, 0, 0],
            [1, 0, 0, 0, 0, 0],
            [0, 0, 0, 0, 0, 0],
            [0, 0, 0, 0, 0, 0]
        ])
    );

    assert_eq!(
        Board::new([
            [1, 1, 1, 0, 0, 0],
            [1, 1, 1, 0, 0, 0],
            [1, 1, 1, 0, 0, 0],
            [0, 0, 0, 0, 0, 0],
            [0, 0, 0, 0, 0, 0],
            [0, 0, 0, 0, 0, 0]
        ])
        .swap(Swap::TL_BR),
        Board::new([
            [0, 0, 0, 0, 0, 0],
            [0, 0, 0, 0, 0, 0],
            [0, 0, 0, 0, 0, 0],
            [0, 0, 0, 1, 1, 1],
            [0, 0, 0, 1, 1, 1],
            [0, 0, 0, 1, 1, 1]
        ])
    );

    assert_eq!(
        Board::new([
            [0, 0, 0, 0, 0, 0],
            [0, 0, 0, 0, 0, 0],
            [0, 0, 0, 0, 0, 0],
            [2, 2, 2, 0, 0, 0],
            [2, 2, 2, 0, 0, 0],
            [2, 2, 2, 0, 0, 0]
        ])
        .swap(Swap::TR_BL),
        Board::new([
            [0, 0, 0, 2, 2, 2],
            [0, 0, 0, 2, 2, 2],
            [0, 0, 0, 2, 2, 2],
            [0, 0, 0, 0, 0, 0],
            [0, 0, 0, 0, 0, 0],
            [0, 0, 0, 0, 0, 0]
        ])
    );
}

#[test]
fn board_swap_test() {
    assert_eq!(
        Board::new([
            [1, 0, 0, 0, 0, 0],
            [0, 0, 0, 0, 0, 0],
            [0, 0, 0, 0, 0, 0],
            [0, 0, 0, 0, 0, 0],
            [0, 0, 0, 0, 0, 0],
            [0, 0, 0, 0, 0, 0]
        ])
        .swap(Swap::TL_BL),
        Board::new([
            [0, 0, 0, 0, 0, 0],
            [0, 0, 0, 0, 0, 0],
            [0, 0, 0, 0, 0, 0],
            [1, 0, 0, 0, 0, 0],
            [0, 0, 0, 0, 0, 0],
            [0, 0, 0, 0, 0, 0]
        ])
    );

    assert_eq!(
        Board::new([
            [1, 1, 1, 0, 0, 0],
            [1, 1, 1, 0, 0, 0],
            [1, 1, 1, 0, 0, 0],
            [0, 0, 0, 0, 0, 0],
            [0, 0, 0, 0, 0, 0],
            [0, 0, 0, 0, 0, 0]
        ])
        .swap(Swap::TL_BR),
        Board::new([
            [0, 0, 0, 0, 0, 0],
            [0, 0, 0, 0, 0, 0],
            [0, 0, 0, 0, 0, 0],
            [0, 0, 0, 1, 1, 1],
            [0, 0, 0, 1, 1, 1],
            [0, 0, 0, 1, 1, 1]
        ])
    );

    assert_eq!(
        Board::new([
            [0, 0, 0, 0, 0, 0],
            [0, 0, 0, 0, 0, 0],
            [0, 0, 0, 0, 0, 0],
            [2, 2, 2, 0, 0, 0],
            [2, 2, 2, 0, 0, 0],
            [2, 2, 2, 0, 0, 0]
        ])
        .swap(Swap::TR_BL),
        Board::new([
            [0, 0, 0, 2, 2, 2],
            [0, 0, 0, 2, 2, 2],
            [0, 0, 0, 2, 2, 2],
            [0, 0, 0, 0, 0, 0],
            [0, 0, 0, 0, 0, 0],
            [0, 0, 0, 0, 0, 0]
        ])
    );
}

#[test]
fn player_won_test() {
    assert_eq!(
        Board::new([
            [1, 1, 1, 1, 1, 0],
            [0, 0, 0, 0, 0, 0],
            [0, 0, 0, 0, 0, 0],
            [0, 0, 0, 0, 0, 0],
            [0, 0, 0, 0, 0, 0],
            [0, 0, 0, 0, 0, 0]
        ])
        .player_won(Player::Player1),
        true
    );

    assert_eq!(
        Board::new([
            [0, 0, 0, 0, 0, 0],
            [0, 0, 2, 0, 0, 0],
            [0, 0, 2, 0, 0, 0],
            [0, 0, 2, 0, 0, 0],
            [0, 0, 2, 0, 0, 0],
            [0, 0, 2, 0, 0, 0]
        ])
        .player_won(Player::Player2),
        true
    );

    assert_eq!(
        Board::new([
            [0, 1, 0, 0, 0, 0],
            [0, 0, 1, 0, 0, 0],
            [0, 0, 0, 1, 0, 0],
            [0, 0, 0, 0, 1, 0],
            [0, 0, 0, 0, 0, 1],
            [0, 0, 0, 0, 0, 0]
        ])
        .player_won(Player::Player1),
        true
    );

    assert_eq!(
        Board::new([
            [0, 0, 0, 0, 0, 2],
            [0, 0, 0, 0, 2, 0],
            [0, 0, 0, 2, 0, 0],
            [0, 0, 2, 0, 0, 0],
            [0, 2, 0, 0, 0, 0],
            [0, 0, 0, 0, 0, 0]
        ])
        .player_won(Player::Player2),
        true
    );
}

#[test]
fn board_player_won_test() {
    assert_eq!(
        Board::new([
            [1, 1, 1, 1, 1, 0],
            [0, 0, 0, 0, 0, 0],
            [0, 0, 0, 0, 0, 0],
            [0, 0, 0, 0, 0, 0],
            [0, 0, 0, 0, 0, 0],
            [0, 0, 0, 0, 0, 0]
        ])
        .player_won(Player::Player1),
        true
    );

    assert_eq!(
        Board::new([
            [0, 0, 0, 0, 0, 0],
            [0, 0, 2, 0, 0, 0],
            [0, 0, 2, 0, 0, 0],
            [0, 0, 2, 0, 0, 0],
            [0, 0, 2, 0, 0, 0],
            [0, 0, 2, 0, 0, 0]
        ])
        .player_won(Player::Player2),
        true
    );

    assert_eq!(
        Board::new([
            [0, 1, 0, 0, 0, 0],
            [0, 0, 1, 0, 0, 0],
            [0, 0, 0, 1, 0, 0],
            [0, 0, 0, 0, 1, 0],
            [0, 0, 0, 0, 0, 1],
            [0, 0, 0, 0, 0, 0]
        ])
        .player_won(Player::Player1),
        true
    );

    assert_eq!(
        Board::new([
            [0, 0, 0, 0, 0, 2],
            [0, 0, 0, 0, 2, 0],
            [0, 0, 0, 2, 0, 0],
            [0, 0, 2, 0, 0, 0],
            [0, 2, 0, 0, 0, 0],
            [0, 0, 0, 0, 0, 0]
        ])
        .player_won(Player::Player2),
        true
    );
}

#[test]
fn player_won_wrapping() {
    assert_eq!(
        Board::new([
            [0, 0, 0, 0, 0, 0],
            [0, 0, 0, 1, 1, 1],
            [1, 1, 0, 0, 0, 0],
            [0, 0, 0, 0, 0, 0],
            [0, 0, 0, 0, 0, 0],
            [0, 0, 0, 0, 0, 0]
        ])
        .player_won(Player::Player1),
        false
    );

    assert_eq!(
        Board::new([
            [0, 0, 0, 1, 0, 0],
            [0, 0, 0, 0, 1, 0],
            [0, 0, 0, 0, 0, 1],
            [0, 0, 0, 0, 0, 0],
            [1, 0, 0, 0, 0, 0],
            [0, 1, 0, 0, 0, 0]
        ])
        .player_won(Player::Player1),
        false
    );

    assert_eq!(
        Board::new([
            [0, 1, 0, 0, 0, 0],
            [1, 0, 0, 0, 0, 1],
            [0, 0, 0, 0, 1, 0],
            [0, 0, 0, 1, 0, 0],
            [0, 0, 0, 0, 0, 0],
            [0, 0, 0, 0, 0, 0]
        ])
        .player_won(Player::Player1),
        false
    );
}

#[test]
fn board_player_won_wrapping() {
    assert_eq!(
        Board::new([
            [0, 0, 0, 0, 0, 0],
            [0, 0, 0, 1, 1, 1],
            [1, 1, 0, 0, 0, 0],
            [0, 0, 0, 0, 0, 0],
            [0, 0, 0, 0, 0, 0],
            [0, 0, 0, 0, 0, 0]
        ])
        .player_won(Player::Player1),
        false
    );

    assert_eq!(
        Board::new([
            [0, 0, 0, 1, 0, 0],
            [0, 0, 0, 0, 1, 0],
            [0, 0, 0, 0, 0, 1],
            [0, 0, 0, 0, 0, 0],
            [1, 0, 0, 0, 0, 0],
            [0, 1, 0, 0, 0, 0]
        ])
        .player_won(Player::Player1),
        false
    );

    assert_eq!(
        Board::new([
            [0, 1, 0, 0, 0, 0],
            [1, 0, 0, 0, 0, 1],
            [0, 0, 0, 0, 1, 0],
            [0, 0, 0, 1, 0, 0],
            [0, 0, 0, 0, 0, 0],
            [0, 0, 0, 0, 0, 0]
        ])
        .player_won(Player::Player1),
        false
    );
}

#[test]
fn outcome_test() {
    let open_board = Board::new([
        [1, 2, 0, 0, 0, 0],
        [0, 0, 0, 0, 0, 0],
        [0, 0, 0, 0, 0, 0],
        [0, 0, 0, 0, 0, 0],
        [0, 0, 0, 0, 0, 0],
        [0, 0, 0, 0, 0, 0],
    ]);
    assert_eq!(open_board.outcome(), None);

    let won_board = Board::new([
        [1, 1, 1, 1, 1, 0],
        [2, 2, 2, 2, 0, 0],
        [0, 0, 0, 0, 0, 0],
        [0, 0, 0, 0, 0, 0],
        [0, 0, 0, 0, 0, 0],
        [0, 0, 0, 0, 0, 0],
    ]);
    assert_eq!(won_board.outcome(), Some(Outcome::Player1Win));

    // A full board is a draw.
    let full = Board {
        player1: 0b010101_101010_010101_101010_010101_101010,
        player2: 0b101010_010101_101010_010101_101010_010101,
    };
    assert!(full.is_draw());
    assert_eq!(full.outcome(), Some(Outcome::Draw));
}

// The antidiagonal win whose middle cell sits away from both main
// diagonals: five in a line must be detected on every genuine line.
#[test]
fn player_won_low_antidiagonal() {
    assert_eq!(
        Board::new([
            [0, 0, 0, 0, 0, 0],
            [0, 0, 0, 0, 0, 1],
            [0, 0, 0, 0, 1, 0],
            [0, 0, 0, 1, 0, 0],
            [0, 0, 1, 0, 0, 0],
            [0, 1, 0, 0, 0, 0]
        ])
        .player_won(Player::Player1),
        true
    );
}

// Every child returned by move enumeration is reproduced exactly by
// recovering its action and applying it.
#[test]
fn children_action_round_trip() {
    let board = Board::new([
        [1, 2, 0, 0, 0, 0],
        [1, 2, 0, 1, 2, 0],
        [1, 2, 0, 0, 0, 0],
        [0, 0, 0, 0, 0, 0],
        [0, 0, 0, 0, 0, 0],
        [0, 0, 0, 0, 0, 0],
    ]);
    let children = board.children(false);
    assert_eq!(children.len(), 28 * 6);
    for c in children.iter() {
        let action = board.action_to(*c);
        assert_eq!(board.apply_action(action), *c);
    }
}

// The actions listing aligns index by index with the children listing.
#[test]
fn actions_align_with_children() {
    let board = Board::new([
        [0, 0, 0, 0, 0, 0],
        [0, 1, 0, 0, 0, 0],
        [0, 0, 2, 0, 0, 0],
        [0, 0, 0, 0, 0, 0],
        [0, 0, 0, 0, 0, 0],
        [0, 0, 0, 0, 0, 0],
    ]);
    let children = board.children(false);
    let actions = board.actions();
    assert_eq!(children.len(), actions.len());
    for (c, a) in children.iter().zip(actions.iter()) {
        assert_eq!(board.apply_action(*a), *c);
    }
}

// With the must-block filter set, a cell where the opponent could win at
// once is answered with only that cell's six swapped variants.
#[test]
fn children_forced_move_filter() {
    // Player 2 to move; player 1 completes a row at (0, 4) with the
    // bottom-quadrant swap, so placement is forced there.
    let board = Board::new([
        [1, 1, 1, 1, 0, 0],
        [2, 2, 2, 0, 0, 0],
        [0, 0, 0, 0, 0, 0],
        [0, 0, 0, 0, 0, 0],
        [0, 0, 0, 0, 0, 0],
        [0, 0, 0, 0, 0, 0],
    ]);
    assert_eq!(board.turn(), Player::Player2);
    let filtered = board.children(true);
    assert_eq!(filtered.len(), 6);
    let placed = board.play_at(Player::Player2, 4);
    for (i, swap) in Swap::iterator().iter().enumerate() {
        assert_eq!(filtered[i], placed.swap(*swap));
    }

    // Without any must-block cell, the filter changes nothing.
    let calm = Board::new([
        [1, 0, 0, 0, 0, 0],
        [0, 2, 0, 0, 0, 0],
        [0, 0, 0, 0, 0, 0],
        [0, 0, 0, 0, 0, 0],
        [0, 0, 0, 0, 0, 0],
        [0, 0, 0, 0, 0, 0],
    ]);
    assert_eq!(calm.children(true), calm.children(false));
}

#[test]
fn grid_inverts_new() {
    let layout = [
        [0u8, 1, 0, 0, 2, 0],
        [0, 0, 0, 0, 0, 0],
        [2, 0, 1, 0, 0, 0],
        [0, 0, 0, 2, 0, 0],
        [0, 1, 0, 0, 0, 0],
        [0, 0, 0, 0, 0, 1],
    ];
    let board = Board::new(layout);
    let grid = board.grid();
    assert_eq!(grid.len(), 36);
    for i in 0..6 {
        for j in 0..6 {
            assert_eq!(grid[6 * i + j], layout[i][j]);
        }
    }
}

#[test]
fn is_valid_test() {
    assert!(Board { player1: 0x1, player2: 0x2 }.is_valid());
    // Overlapping stones.
    assert!(!Board { player1: 0x3, player2: 0x2 }.is_valid());
    // A bit beyond the 36 cells.
    assert!(!Board { player1: 1 << 36, player2: 0 }.is_valid());
}

#[test]
fn free_squares_test() {
    let board = Board { player1: 0x1, player2: 0x2 };
    assert_eq!(board.free_squares(), 0xF_FFFF_FFFC);
    assert_eq!(board.turn_number(), 2);
}

#[test]
fn default_is_empty() {
    assert_eq!(Board::default(), Board { player1: 0, player2: 0 });
    assert_eq!(Action::new(7, Swap::BL_BR), Action { square: 7, swap: Swap::BL_BR });
}
