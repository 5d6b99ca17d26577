use pentarust::alpha_beta::TranspositionTable;
use pentarust::book::aggregate_stats;
use pentarust::book::canonical_children;
use pentarust::book::pick_best_ratio;
use pentarust::book::pick_best_ucb;
use pentarust::book::play_game;
use pentarust::book::Node;
use pentarust::game::Board;
use pentarust::game::Outcome;
use pentarust::game::Player;

// Canonical children merge symmetric positions: the empty board's 216
// raw children collapse to far fewer canonical keys, each listed once.
#[test]
fn canonical_children_dedupes() {
    let empty = Board::default();
    let keys = canonical_children(empty);
    assert!(keys.len() < empty.children(false).len());
    assert!(!keys.is_empty());
    for i in 0..keys.len() {
        assert_eq!(keys[i].canonical(), keys[i]);
        for j in 0..i {
            assert_ne!(keys[j], keys[i]);
        }
    }
    // Every raw child's canonical form is listed.
    for c in empty.children(false) {
        assert!(keys.contains(&c.canonical()));
    }
}

#[test]
fn aggregate_sums_children() {
    let board = Board::default();
    let mut parent = Node {
        board,
        games_played: 7,
        player1_wins: 3,
        player2_wins: 2,
        expanded: true,
    };
    let children = vec![
        Node { board, games_played: 4, player1_wins: 1, player2_wins: 2, expanded: false },
        Node { board, games_played: 6, player1_wins: 5, player2_wins: 1, expanded: true },
        Node { board, games_played: 2, player1_wins: 0, player2_wins: 0, expanded: false },
    ];
    aggregate_stats(&mut parent, &children);
    assert_eq!(parent.games_played, 12);
    assert_eq!(parent.player1_wins, 6);
    assert_eq!(parent.player2_wins, 3);
    assert!(parent.expanded);
}

#[test]
fn pick_best_ratio_test() {
    let board = Board::default();
    let children = vec![
        Node { board, games_played: 10, player1_wins: 5, player2_wins: 4, expanded: true },
        Node { board, games_played: 10, player1_wins: 9, player2_wins: 1, expanded: true },
        Node { board, games_played: 10, player1_wins: 2, player2_wins: 8, expanded: true },
    ];
    assert_eq!(pick_best_ratio(&children, Player::Player1), 1);
    assert_eq!(pick_best_ratio(&children, Player::Player2), 2);
}

#[test]
fn pick_best_ucb_in_range() {
    let board = Board::default();
    let children = vec![
        Node { board, games_played: 3, player1_wins: 1, player2_wins: 1, expanded: true },
        Node { board, games_played: 5, player1_wins: 4, player2_wins: 0, expanded: true },
    ];
    let picked = pick_best_ucb(&children, 8);
    assert!(picked < children.len());
}

#[test]
fn play_game_reports_terminal() {
    let won = Board::new([
        [1, 1, 1, 1, 1, 0],
        [2, 2, 2, 2, 0, 0],
        [0, 0, 0, 0, 0, 0],
        [0, 0, 0, 0, 0, 0],
        [0, 0, 0, 0, 0, 0],
        [0, 0, 0, 0, 0, 0],
    ]);
    let mut table = TranspositionTable::new(16);
    assert_eq!(play_game(won, 1, &mut table), Outcome::Player1Win);

    // One forced placement from a full, line-free board: a draw.
    let nearly_full = Board::new([
        [1, 1, 1, 1, 0, 1],
        [1, 2, 2, 2, 1, 2],
        [2, 2, 2, 2, 1, 2],
        [2, 2, 2, 2, 1, 2],
        [1, 2, 1, 1, 2, 1],
        [1, 1, 1, 1, 2, 1],
    ]);
    assert_eq!(play_game(nearly_full, 1, &mut table), Outcome::Draw);
}
