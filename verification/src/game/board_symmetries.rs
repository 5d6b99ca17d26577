//! The eight symmetries of the square board, computed on raw 36-bit
//! occupancy words by mask-and-shift steps: flips about the vertical and
//! horizontal axes and about the two diagonals, whose compositions give the
//! three rotations.
use vstd::prelude::*;

use crate::bits::in_board;
use crate::game::board::board_wf;
use crate::game::board::Board;

verus! {

/// Mirror about the horizontal axis: cell `(r, c)` moves to `(5 - r, c)`.
pub open spec fn flip_v(x: u64) -> u64 {
    let k1: u64 = 0b000000_000000_111111_000000_000000_111111;
    let k2: u64 = 0b000000_000000_000000_111111_111111_111111;
    let x1: u64 = ((x >> 12) & k1) | (x & !(k1 | (k1 << 12))) | ((x & k1) << 12);
    ((x1 >> 18) & k2) | ((x1 & k2) << 18)
}

/// Mirror about the vertical axis: cell `(r, c)` moves to `(r, 5 - c)`.
pub open spec fn flip_h(x: u64) -> u64 {
    let k1: u64 = 0b001001_001001_001001_001001_001001_001001;
    let k2: u64 = 0b000111_000111_000111_000111_000111_000111;
    let x1: u64 = ((x >> 2) & k1) | (x & !(k1 | (k1 << 2))) | ((x & k1) << 2);
    ((x1 >> 3) & k2) | ((x1 & k2) << 3)
}

/// Mirror about the antidiagonal: cell `(r, c)` moves to `(5 - c, 5 - r)`.
pub open spec fn flip_d(x: u64) -> u64 {
    let k1: u64 = 0b000000_001001_010010_000000_001001_010010;
    let k2: u64 = 0b000000_000000_001001_000000_000000_001001;
    let k3: u64 = 0b000000_000000_000000_000111_000111_000111;
    let x1: u64 = ((x >> 7) & k1) | (x & !(k1 | (k1 << 7))) | ((x & k1) << 7);
    let x2: u64 = ((x1 >> 14) & k2) | (x1 & !(k2 | (k2 << 14))) | ((x1 & k2) << 14);
    ((x2 >> 21) & k3) | (x2 & !(k3 | (k3 << 21))) | ((x2 & k3) << 21)
}

/// Mirror about the main diagonal: cell `(r, c)` moves to `(c, r)`.
pub open spec fn flip_a(x: u64) -> u64 {
    let k1: u64 = 0b000000_100100_010010_000000_100100_010010;
    let k2: u64 = 0b000000_000000_100100_000000_000000_100100;
    let k3: u64 = 0b000000_000000_000000_111000_111000_111000;
    let x1: u64 = ((x >> 5) & k1) | (x & !(k1 | (k1 << 5))) | ((x & k1) << 5);
    let x2: u64 = ((x1 >> 10) & k2) | (x1 & !(k2 | (k2 << 10))) | ((x1 & k2) << 10);
    ((x2 >> 15) & k3) | (x2 & !(k3 | (k3 << 15))) | ((x2 & k3) << 15)
}

/// Each flip stays within the 36 board bits and undoes itself.
pub proof fn lemma_flip_involutions(x: u64)
    by (bit_vector)
    requires
        in_board(x),
    ensures
        in_board(flip_v(x)),
        in_board(flip_h(x)),
        in_board(flip_d(x)),
        in_board(flip_a(x)),
        flip_v(flip_v(x)) == x,
        flip_h(flip_h(x)) == x,
        flip_d(flip_d(x)) == x,
        flip_a(flip_a(x)) == x,
{
}

/// Composing a flip after the vertical-axis mirror lands back in the
/// eight-element symmetry group: the products needed to permute an orbit
/// listing.
pub proof fn lemma_flip_products_vh(x: u64)
    by (bit_vector)
    requires
        in_board(x),
    ensures
        flip_v(flip_h(x)) == flip_h(flip_v(x)),
        flip_d(flip_h(x)) == flip_a(flip_v(x)),
        flip_a(flip_h(x)) == flip_d(flip_v(x)),
{
}

/// The products of a flip after the antidiagonal mirror.
pub proof fn lemma_flip_products_d(x: u64)
    by (bit_vector)
    requires
        in_board(x),
    ensures
        flip_v(flip_d(x)) == flip_a(flip_v(x)),
        flip_h(flip_d(x)) == flip_d(flip_v(x)),
        flip_a(flip_d(x)) == flip_h(flip_v(x)),
{
}

/// The products of a flip after the main-diagonal mirror.
pub proof fn lemma_flip_products_a(x: u64)
    by (bit_vector)
    requires
        in_board(x),
    ensures
        flip_v(flip_a(x)) == flip_d(flip_v(x)),
        flip_h(flip_a(x)) == flip_a(flip_v(x)),
        flip_d(flip_a(x)) == flip_h(flip_v(x)),
{
}

/// Flips keep two disjoint occupancy words disjoint.
pub proof fn lemma_flip_disjoint(a: u64, b: u64)
    by (bit_vector)
    requires
        in_board(a),
        in_board(b),
        a & b == 0,
    ensures
        flip_v(a) & flip_v(b) == 0,
        flip_h(a) & flip_h(b) == 0,
        flip_d(a) & flip_d(b) == 0,
        flip_a(a) & flip_a(b) == 0,
{
}

/// Mirrors one occupancy word about the horizontal axis.
pub fn flip_vertical_u64(x: u64) -> (r: u64)
    ensures
        r == flip_v(x),
{
    let k1: u64 = 0b000000_000000_111111_000000_000000_111111;
    let k2: u64 = 0b000000_000000_000000_111111_111111_111111;
    let x1: u64 = ((x >> 12) & k1) | (x & !(k1 | (k1 << 12))) | ((x & k1) << 12);
    ((x1 >> 18) & k2) | ((x1 & k2) << 18)
}

/// Mirrors one occupancy word about the vertical axis.
pub fn flip_horizontal_u64(x: u64) -> (r: u64)
    ensures
        r == flip_h(x),
{
    let k1: u64 = 0b001001_001001_001001_001001_001001_001001;
    let k2: u64 = 0b000111_000111_000111_000111_000111_000111;
    let x1: u64 = ((x >> 2) & k1) | (x & !(k1 | (k1 << 2))) | ((x & k1) << 2);
    ((x1 >> 3) & k2) | ((x1 & k2) << 3)
}

/// Mirrors one occupancy word about the antidiagonal.
pub fn flip_diagonal_u64(x: u64) -> (r: u64)
    ensures
        r == flip_d(x),
{
    let k1: u64 = 0b000000_001001_010010_000000_001001_010010;
    let k2: u64 = 0b000000_000000_001001_000000_000000_001001;
    let k3: u64 = 0b000000_000000_000000_000111_000111_000111;
    let x1: u64 = ((x >> 7) & k1) | (x & !(k1 | (k1 << 7))) | ((x & k1) << 7);
    let x2: u64 = ((x1 >> 14) & k2) | (x1 & !(k2 | (k2 << 14))) | ((x1 & k2) << 14);
    ((x2 >> 21) & k3) | (x2 & !(k3 | (k3 << 21))) | ((x2 & k3) << 21)
}

/// Mirrors one occupancy word about the main diagonal.
pub fn flip_antidiagonal_u64(x: u64) -> (r: u64)
    ensures
        r == flip_a(x),
{
    let k1: u64 = 0b000000_100100_010010_000000_100100_010010;
    let k2: u64 = 0b000000_000000_100100_000000_000000_100100;
    let k3: u64 = 0b000000_000000_000000_111000_111000_111000;
    let x1: u64 = ((x >> 5) & k1) | (x & !(k1 | (k1 << 5))) | ((x & k1) << 5);
    let x2: u64 = ((x1 >> 10) & k2) | (x1 & !(k2 | (k2 << 10))) | ((x1 & k2) << 10);
    ((x2 >> 15) & k3) | (x2 & !(k3 | (k3 << 15))) | ((x2 & k3) << 15)
}

/// A flip applied to both players' occupancy words.
pub open spec fn flip_v_board(b: Board) -> Board {
    Board { player1: flip_v(b.player1), player2: flip_v(b.player2) }
}

/// See `flip_v_board`.
pub open spec fn flip_h_board(b: Board) -> Board {
    Board { player1: flip_h(b.player1), player2: flip_h(b.player2) }
}

/// See `flip_v_board`.
pub open spec fn flip_d_board(b: Board) -> Board {
    Board { player1: flip_d(b.player1), player2: flip_d(b.player2) }
}

/// See `flip_v_board`.
pub open spec fn flip_a_board(b: Board) -> Board {
    Board { player1: flip_a(b.player1), player2: flip_a(b.player2) }
}

/// Mirrors both players' stones about the horizontal axis.
pub fn flip_vertical(board: Board) -> (r: Board)
    ensures
        r == flip_v_board(board),
{
    Board { player1: flip_vertical_u64(board.player1), player2: flip_vertical_u64(board.player2) }
}

/// Mirrors both players' stones about the vertical axis.
pub fn flip_horizontal(board: Board) -> (r: Board)
    ensures
        r == flip_h_board(board),
{
    Board {
        player1: flip_horizontal_u64(board.player1),
        player2: flip_horizontal_u64(board.player2),
    }
}

/// Mirrors both players' stones about the antidiagonal.
pub fn flip_diagonal(board: Board) -> (r: Board)
    ensures
        r == flip_d_board(board),
{
    Board { player1: flip_diagonal_u64(board.player1), player2: flip_diagonal_u64(board.player2) }
}

/// The eight symmetric transforms of a board: identity, the four mirror
/// flips, and the three rotations written as flips of the vertical mirror.
pub open spec fn transforms(b: Board) -> Seq<Board> {
    let v = flip_v_board(b);
    seq![
        b,
        v,
        flip_h_board(b),
        flip_d_board(b),
        flip_a_board(b),
        flip_a_board(v),
        flip_h_board(v),
        flip_d_board(v),
    ]
}

/// The fixed total order on boards: by player 1's word, then player 2's.
pub open spec fn board_le(a: Board, b: Board) -> bool {
    a.player1 < b.player1 || (a.player1 == b.player1 && a.player2 <= b.player2)
}

/// The smallest board among the first `n` entries of `s`, under `board_le`.
pub open spec fn seq_min(s: Seq<Board>, n: int) -> Board
    decreases n,
{
    if n <= 1 {
        s[0]
    } else {
        let m = seq_min(s, n - 1);
        if board_le(s[n - 1], m) {
            s[n - 1]
        } else {
            m
        }
    }
}

/// The canonical form: the smallest of the eight symmetric transforms.
pub open spec fn canonical_spec(b: Board) -> Board {
    seq_min(transforms(b), 8)
}

/// The minimum of a prefix is one of its entries and below all of them.
pub proof fn lemma_seq_min(s: Seq<Board>, n: int)
    requires
        1 <= n <= s.len(),
    ensures
        exists|i: int| 0 <= i < n && s[i] == seq_min(s, n),
        forall|i: int| 0 <= i < n ==> board_le(seq_min(s, n), s[i]),
    decreases n,
{
    if n <= 1 {
        assert(s[0] == seq_min(s, n));
    } else {
        lemma_seq_min(s, n - 1);
        let m = seq_min(s, n - 1);
        if board_le(s[n - 1], m) {
            assert(s[n - 1] == seq_min(s, n));
        } else {
            let i = choose|i: int| 0 <= i < n - 1 && s[i] == m;
            assert(s[i] == seq_min(s, n));
        }
    }
}

/// Two listings with the same entries have the same minimum.
pub proof fn lemma_min_same_elements(s1: Seq<Board>, s2: Seq<Board>)
    requires
        s1.len() == 8,
        s2.len() == 8,
        forall|i: int| 0 <= i < 8 ==> s2.contains(#[trigger] s1[i]),
        forall|i: int| 0 <= i < 8 ==> s1.contains(#[trigger] s2[i]),
    ensures
        seq_min(s1, 8) == seq_min(s2, 8),
{
    lemma_seq_min(s1, 8);
    lemma_seq_min(s2, 8);
    let m1 = seq_min(s1, 8);
    let m2 = seq_min(s2, 8);
    let i1 = choose|i: int| 0 <= i < 8 && s1[i] == m1;
    let i2 = choose|i: int| 0 <= i < 8 && s2[i] == m2;
    assert(s2.contains(s1[i1]));
    assert(s1.contains(s2[i2]));
    let j1 = choose|j: int| 0 <= j < s2.len() && s2[j] == m1;
    let j2 = choose|j: int| 0 <= j < s1.len() && s1[j] == m2;
    assert(board_le(m2, s2[j1]));
    assert(board_le(m1, s1[j2]));
}

/// The thirteen products of two flips the orbit proofs use, lifted to
/// boards by applying the word identities to both players.
pub proof fn lemma_board_group(b: Board)
    requires
        board_wf(b),
    ensures
        flip_v_board(flip_v_board(b)) == b,
        flip_h_board(flip_h_board(b)) == b,
        flip_d_board(flip_d_board(b)) == b,
        flip_a_board(flip_a_board(b)) == b,
        flip_v_board(flip_h_board(b)) == flip_h_board(flip_v_board(b)),
        flip_d_board(flip_h_board(b)) == flip_a_board(flip_v_board(b)),
        flip_a_board(flip_h_board(b)) == flip_d_board(flip_v_board(b)),
        flip_v_board(flip_d_board(b)) == flip_a_board(flip_v_board(b)),
        flip_h_board(flip_d_board(b)) == flip_d_board(flip_v_board(b)),
        flip_a_board(flip_d_board(b)) == flip_h_board(flip_v_board(b)),
        flip_v_board(flip_a_board(b)) == flip_d_board(flip_v_board(b)),
        flip_h_board(flip_a_board(b)) == flip_a_board(flip_v_board(b)),
        flip_d_board(flip_a_board(b)) == flip_h_board(flip_v_board(b)),
{
    lemma_flip_involutions(b.player1);
    lemma_flip_involutions(b.player2);
    lemma_flip_products_vh(b.player1);
    lemma_flip_products_vh(b.player2);
    lemma_flip_products_d(b.player1);
    lemma_flip_products_d(b.player2);
    lemma_flip_products_a(b.player1);
    lemma_flip_products_a(b.player2);
}

/// Every transform of a well-formed board is well-formed.
pub proof fn lemma_transforms_wf(b: Board)
    requires
        board_wf(b),
    ensures
        forall|i: int| 0 <= i < 8 ==> board_wf(#[trigger] transforms(b)[i]),
{
    lemma_flip_involutions(b.player1);
    lemma_flip_involutions(b.player2);
    lemma_flip_disjoint(b.player1, b.player2);
    let v = flip_v_board(b);
    lemma_flip_involutions(v.player1);
    lemma_flip_involutions(v.player2);
    lemma_flip_disjoint(v.player1, v.player2);
    assert(transforms(b)[0] == b);
    assert(board_wf(transforms(b)[1]));
    assert(board_wf(transforms(b)[2]));
    assert(board_wf(transforms(b)[3]));
    assert(board_wf(transforms(b)[4]));
    assert(board_wf(transforms(b)[5]));
    assert(board_wf(transforms(b)[6]));
    assert(board_wf(transforms(b)[7]));
}

/// Applying any one of the four flips permutes the orbit: the transforms
/// of the flipped board are exactly the transforms of the board itself.
#[verifier::rlimit(100)]
#[verifier::spinoff_prover]
pub proof fn lemma_orbit_permuted(b: Board, t: int)
    requires
        board_wf(b),
        0 <= t < 5,
    ensures
        forall|i: int| 0 <= i < 8 ==> transforms(b).contains(#[trigger] transforms(transforms(b)[t])[i]),
        forall|i: int| 0 <= i < 8 ==> transforms(transforms(b)[t]).contains(
            #[trigger] transforms(b)[i],
        ),
{
    let v = flip_v_board(b);
    lemma_flip_involutions(b.player1);
    lemma_flip_involutions(b.player2);
    lemma_flip_disjoint(b.player1, b.player2);
    lemma_board_group(b);
    lemma_board_group(v);
    let s = transforms(b);
    let st = transforms(s[t]);
    if t == 0 {
        assert(forall|i: int| 0 <= i < 8 ==> s.contains(#[trigger] st[i]));
        assert(forall|i: int| 0 <= i < 8 ==> st.contains(#[trigger] s[i]));
    } else if t == 1 {
        // transforms(v b) = [v, id, hv, dv, av, a, h, d] applied to b
        assert(st[0] == s[1] && st[1] == s[0] && st[2] == s[6] && st[3] == s[7] && st[4] == s[5]
            && st[5] == s[4] && st[6] == s[2] && st[7] == s[3]);
        assert(forall|i: int| 0 <= i < 8 ==> s.contains(#[trigger] st[i]));
        assert(forall|i: int| 0 <= i < 8 ==> st.contains(#[trigger] s[i]));
    } else if t == 2 {
        // transforms(h b) = [h, hv, id, av, dv, d, v, a] applied to b
        assert(st[0] == s[2] && st[1] == s[6] && st[2] == s[0] && st[3] == s[5] && st[4] == s[7]
            && st[5] == s[3] && st[6] == s[1] && st[7] == s[4]);
        assert(forall|i: int| 0 <= i < 8 ==> s.contains(#[trigger] st[i]));
        assert(forall|i: int| 0 <= i < 8 ==> st.contains(#[trigger] s[i]));
    } else if t == 3 {
        // transforms(d b) = [d, av, dv, id, hv, v, a, h] applied to b
        assert(st[0] == s[3] && st[1] == s[5] && st[2] == s[7] && st[3] == s[0] && st[4] == s[6]
            && st[5] == s[1] && st[6] == s[4] && st[7] == s[2]);
        assert(forall|i: int| 0 <= i < 8 ==> s.contains(#[trigger] st[i]));
        assert(forall|i: int| 0 <= i < 8 ==> st.contains(#[trigger] s[i]));
    } else {
        // transforms(a b) = [a, dv, av, hv, id, h, d, v] applied to b
        assert(st[0] == s[4] && st[1] == s[7] && st[2] == s[5] && st[3] == s[6] && st[4] == s[0]
            && st[5] == s[2] && st[6] == s[3] && st[7] == s[1]);
        assert(forall|i: int| 0 <= i < 8 ==> s.contains(#[trigger] st[i]));
        assert(forall|i: int| 0 <= i < 8 ==> st.contains(#[trigger] s[i]));
    }
}

/// Canonicalization does not see the symmetry that produced a board: each
/// of the eight symmetric transforms has the same canonical form.
#[verifier::rlimit(100)]
#[verifier::spinoff_prover]
pub proof fn lemma_canonical_symmetric(b: Board)
    requires
        board_wf(b),
    ensures
        forall|t: int| 0 <= t < 8 ==> canonical_spec(#[trigger] transforms(b)[t])
            == canonical_spec(b),
{
    let s = transforms(b);
    let v = flip_v_board(b);
    lemma_board_group(b);
    lemma_transforms_wf(b);
    assert(v == transforms(b)[1]);
    assert(board_wf(v));
    assert forall|t: int| 0 <= t < 5 implies canonical_spec(#[trigger] s[t]) == canonical_spec(
        b,
    ) by {
        lemma_orbit_permuted(b, t);
        lemma_min_same_elements(transforms(s[t]), s);
    }
    // The rotations are a flip of the vertical mirror: chain two steps.
    assert forall|t: int| 5 <= t < 8 implies canonical_spec(#[trigger] s[t]) == canonical_spec(
        b,
    ) by {
        let tv = if t == 5 {
            4int
        } else if t == 6 {
            2int
        } else {
            3int
        };
        assert(s[t] == transforms(v)[tv]);
        lemma_orbit_permuted(v, tv);
        lemma_min_same_elements(transforms(transforms(v)[tv]), transforms(v));
        lemma_orbit_permuted(b, 1);
        lemma_min_same_elements(transforms(v), s);
    }
}

/// Canonicalization is idempotent: the canonical form is its own
/// canonical form.
pub proof fn lemma_canonical_idempotent(b: Board)
    requires
        board_wf(b),
    ensures
        canonical_spec(canonical_spec(b)) == canonical_spec(b),
{
    lemma_seq_min(transforms(b), 8);
    let i = choose|i: int| 0 <= i < 8 && transforms(b)[i] == seq_min(transforms(b), 8);
    lemma_canonical_symmetric(b);
    assert(canonical_spec(transforms(b)[i]) == canonical_spec(b));
}

/// The canonical form is itself a transform of the board: well-formed,
/// with the same number of stones as the board.
pub proof fn lemma_canonical_wf(b: Board)
    requires
        board_wf(b),
    ensures
        board_wf(canonical_spec(b)),
        exists|i: int| 0 <= i < 8 && transforms(b)[i] == canonical_spec(b),
{
    lemma_seq_min(transforms(b), 8);
    lemma_transforms_wf(b);
    let i = choose|i: int| 0 <= i < 8 && transforms(b)[i] == seq_min(transforms(b), 8);
    assert(board_wf(transforms(b)[i]));
}

/// Mirrors both players' stones about the main diagonal.
pub fn flip_antidiagonal(board: Board) -> (r: Board)
    ensures
        r == flip_a_board(board),
{
    Board {
        player1: flip_antidiagonal_u64(board.player1),
        player2: flip_antidiagonal_u64(board.player2),
    }
}

} // verus!
