use pentarust::alpha_beta::TranspositionTable;
use pentarust::game::Board;

// A lookup hits only for the exact raw occupancy previously stored with
// enough depth: never for a never-stored board, never for a shallower
// entry, and never for a symmetric equivalent.
#[test]
fn table_get_put() {
    let mut table = TranspositionTable::new(128);
    let board = Board::new([
        [0, 0, 0, 0, 0, 0],
        [0, 1, 0, 0, 0, 0],
        [0, 0, 2, 0, 0, 0],
        [0, 0, 0, 0, 0, 0],
        [0, 0, 0, 0, 0, 0],
        [0, 0, 0, 0, 0, 0],
    ]);

    // A never-stored board misses at any depth.
    assert_eq!(table.get(board, 0), None);
    assert_eq!(table.get(board, 7), None);

    table.put(board, 1234, 5);
    // Hits exactly when the query's minimum depth is covered.
    assert_eq!(table.get(board, 0), Some(1234));
    assert_eq!(table.get(board, 5), Some(1234));
    assert_eq!(table.get(board, 6), None);

    // A symmetric equivalent is a different raw occupancy: a miss.
    let mirrored = pentarust::game::flip_vertical(board);
    assert_ne!(mirrored, board);
    assert_eq!(table.get(mirrored, 0), None);

    // Overwriting replaces the slot's entry.
    table.put(board, -7, 9);
    assert_eq!(table.get(board, 9), Some(-7));
    assert_eq!(table.get(board, 10), None);
}

#[test]
fn table_collision_evicts() {
    // One slot: every store lands there, silently evicting.
    let mut table = TranspositionTable::new(1);
    let a = Board { player1: 0x1, player2: 0x2 };
    let b = Board { player1: 0x4, player2: 0x8 };
    table.put(a, 10, 3);
    assert_eq!(table.get(a, 3), Some(10));
    table.put(b, 20, 1);
    assert_eq!(table.get(b, 1), Some(20));
    assert_eq!(table.get(a, 0), None);
}

#[test]
fn table_lookups_switch() {
    let mut table = TranspositionTable::new(8);
    assert!(!table.lookups_on());
    table.set_lookups(true);
    assert!(table.lookups_on());
    table.set_lookups(false);
    assert!(!table.lookups_on());
}
