use pentarust::game::flip_antidiagonal;
use pentarust::game::flip_diagonal;
use pentarust::game::flip_horizontal;
use pentarust::game::flip_vertical;
use pentarust::game::Board;

fn board1() -> Board {
    Board::new([
        [1, 1, 1, 0, 0, 0],
        [0, 1, 1, 0, 0, 0],
        [0, 0, 1, 0, 0, 0],
        [0, 0, 0, 0, 0, 0],
        [0, 0, 0, 0, 0, 0],
        [0, 0, 0, 0, 0, 0],
    ])
}

#[test]
fn vertical_flip_test() {
    assert_eq!(
        flip_vertical(board1()),
        Board::new([
            [0, 0, 0, 0, 0, 0],
            [0, 0, 0, 0, 0, 0],
            [0, 0, 0, 0, 0, 0],
            [0, 0, 1, 0, 0, 0],
            [0, 1, 1, 0, 0, 0],
            [1, 1, 1, 0, 0, 0]
        ])
    );
}

#[test]
fn horizontal_flip_test() {
    assert_eq!(
        flip_horizontal(board1()),
        Board::new([
            [0, 0, 0, 1, 1, 1],
            [0, 0, 0, 1, 1, 0],
            [0, 0, 0, 1, 0, 0],
            [0, 0, 0, 0, 0, 0],
            [0, 0, 0, 0, 0, 0],
            [0, 0, 0, 0, 0, 0]
        ])
    );
}

#[test]
fn flip_diagonal_test() {
    assert_eq!(
        flip_diagonal(board1()),
        Board::new([
            [0, 0, 0, 0, 0, 0],
            [0, 0, 0, 0, 0, 0],
            [0, 0, 0, 0, 0, 0],
            [0, 0, 0, 1, 1, 1],
            [0, 0, 0, 0, 1, 1],
            [0, 0, 0, 0, 0, 1]
        ])
    );

    assert_eq!(
        flip_diagonal(Board::new([
            [0, 0, 0, 0, 0, 0],
            [0, 0, 0, 0, 0, 0],
            [0, 0, 0, 0, 0, 0],
            [0, 0, 0, 0, 0, 0],
            [0, 0, 0, 0, 0, 1],
            [0, 0, 0, 0, 0, 0]
        ])),
        Board::new([
            [0, 1, 0, 0, 0, 0],
            [0, 0, 0, 0, 0, 0],
            [0, 0, 0, 0, 0, 0],
            [0, 0, 0, 0, 0, 0],
            [0, 0, 0, 0, 0, 0],
            [0, 0, 0, 0, 0, 0]
        ])
    );
}

#[test]
fn flip_antidiagonal_test() {
    assert_eq!(
        flip_antidiagonal(board1()),
        Board::new([
            [1, 0, 0, 0, 0, 0],
            [1, 1, 0, 0, 0, 0],
            [1, 1, 1, 0, 0, 0],
            [0, 0, 0, 0, 0, 0],
            [0, 0, 0, 0, 0, 0],
            [0, 0, 0, 0, 0, 0]
        ])
    );
}

#[test]
fn canonical_test() {
    assert_eq!(
        Board::new([
            [0, 0, 0, 0, 0, 0],
            [0, 0, 0, 0, 0, 0],
            [0, 0, 0, 0, 0, 0],
            [0, 0, 0, 0, 0, 0],
            [0, 0, 0, 0, 0, 1],
            [0, 0, 0, 0, 0, 0]
        ])
        .canonical(),
        Board::new([
            [0, 1, 0, 0, 0, 0],
            [0, 0, 0, 0, 0, 0],
            [0, 0, 0, 0, 0, 0],
            [0, 0, 0, 0, 0, 0],
            [0, 0, 0, 0, 0, 0],
            [0, 0, 0, 0, 0, 0]
        ])
    );
}

// Canonicalization is idempotent, and every one of the eight symmetric
// transforms shares the board's canonical form.
#[test]
fn canonical_symmetry_class() {
    let b = Board::new([
        [1, 0, 0, 0, 2, 0],
        [0, 1, 0, 0, 0, 0],
        [0, 0, 2, 0, 0, 0],
        [0, 1, 0, 0, 0, 0],
        [0, 0, 0, 0, 2, 0],
        [0, 0, 1, 0, 0, 0],
    ]);
    let canon = b.canonical();
    assert_eq!(canon.canonical(), canon);

    let v = flip_vertical(b);
    let transforms = [
        b,
        v,
        flip_horizontal(b),
        flip_diagonal(b),
        flip_antidiagonal(b),
        flip_antidiagonal(v),
        flip_horizontal(v),
        flip_diagonal(v),
    ];
    for t in transforms.iter() {
        assert_eq!(t.canonical(), canon);
    }
}

// Each flip undoes itself.
#[test]
fn flips_are_involutions() {
    let b = Board::new([
        [1, 0, 2, 0, 0, 1],
        [0, 2, 0, 0, 1, 0],
        [0, 0, 1, 2, 0, 0],
        [2, 0, 0, 1, 0, 0],
        [0, 1, 0, 0, 2, 0],
        [1, 0, 0, 0, 0, 2],
    ]);
    assert_eq!(flip_vertical(flip_vertical(b)), b);
    assert_eq!(flip_horizontal(flip_horizontal(b)), b);
    assert_eq!(flip_diagonal(flip_diagonal(b)), b);
    assert_eq!(flip_antidiagonal(flip_antidiagonal(b)), b);
}
