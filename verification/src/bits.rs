//! Small spec-level vocabulary for 36-bit boards held in `u64` words, with
//! the bit-vector lemmas the board model is proved against.
use vstd::prelude::*;

verus! {

/// The 36 low bits: one per cell of the 6x6 grid.
pub const BOARD_MASK: u64 = 0xF_FFFF_FFFF;

/// True when bit `n` of `x` is set.
pub open spec fn bit(x: u64, n: u64) -> bool {
    x & (1u64 << n) != 0
}

/// True when no bit above the 36 board bits is set.
pub open spec fn in_board(x: u64) -> bool {
    x & !BOARD_MASK == 0
}

/// The number of set bits among the `n` lowest bits of `x`.
pub open spec fn pop_below(x: u64, n: u64) -> int
    decreases n,
{
    if n == 0 {
        0
    } else {
        pop_below(x, (n - 1) as u64) + if bit(x, (n - 1) as u64) {
            1int
        } else {
            0int
        }
    }
}

/// The number of stones a 36-bit occupancy word holds.
pub open spec fn popcount36(x: u64) -> int {
    pop_below(x, 36)
}

/// A count of low bits never exceeds the number of bits counted.
pub proof fn lemma_pop_below_bound(x: u64, n: u64)
    ensures
        0 <= pop_below(x, n) <= n,
    decreases n,
{
    if n > 0 {
        lemma_pop_below_bound(x, (n - 1) as u64);
    }
}

/// Elementary facts about single-bit reads of `|` and of `1 << n`.
pub proof fn lemma_bit_basics(a: u64, b: u64, n: u64, k: u64)
    by (bit_vector)
    requires
        n < 64,
        k < 64,
    ensures
        bit(a | b, k) == (bit(a, k) || bit(b, k)),
        bit((1u64 << n), k) == (n == k),
        a & b == 0 ==> !(bit(a, k) && bit(b, k)),
        a & b == b & a,
        a | b == b | a,
        in_board(a) && in_board(b) ==> in_board(a | b),
{
}

/// Setting one bit below `n` raises a low-bit count by exactly one; setting
/// a bit at or above `n` leaves it unchanged.
pub proof fn lemma_pop_or_single(x: u64, sq: u64, n: u64)
    requires
        sq < 64,
        !bit(x, sq),
        n <= 64,
    ensures
        pop_below(x | (1u64 << sq), n) == pop_below(x, n) + if sq < n {
            1int
        } else {
            0int
        },
    decreases n,
{
    if n > 0 {
        lemma_pop_or_single(x, sq, (n - 1) as u64);
        lemma_bit_basics(x, (1u64 << sq), sq, (n - 1) as u64);
    }
}

/// Masking and disjointness facts for setting one free board bit.
pub proof fn lemma_set_free_bit_masks(x: u64, other: u64, sq: u64)
    by (bit_vector)
    requires
        sq < 36,
        in_board(x),
        !bit(x, sq),
        !bit(other, sq),
        x & other == 0,
    ensures
        in_board(x | (1u64 << sq)),
        (x | (1u64 << sq)) & other == 0,
        bit(x | (1u64 << sq), sq),
        (x | (1u64 << sq)) | other == (x | other) | (1u64 << sq),
        !bit(x | other, sq),
{
}

/// Setting one free board bit keeps the word inside the board, keeps it
/// disjoint from a word it was disjoint from, and raises the count by one.
pub proof fn lemma_set_free_bit(x: u64, other: u64, sq: u64)
    requires
        sq < 36,
        in_board(x),
        in_board(other),
        !bit(x, sq),
        !bit(other, sq),
        x & other == 0,
    ensures
        in_board(x | (1u64 << sq)),
        (x | (1u64 << sq)) & other == 0,
        bit(x | (1u64 << sq), sq),
        popcount36(x | (1u64 << sq)) == popcount36(x) + 1,
        popcount36(x | other) + 1 == popcount36((x | (1u64 << sq)) | other),
{
    lemma_set_free_bit_masks(x, other, sq);
    lemma_pop_or_single(x, sq, 36);
    lemma_pop_or_single(x | other, sq, 36);
}

/// Counting is additive over disjoint words.
pub proof fn lemma_pop_disjoint(a: u64, b: u64, n: u64)
    requires
        a & b == 0,
        n <= 64,
    ensures
        pop_below(a | b, n) == pop_below(a, n) + pop_below(b, n),
    decreases n,
{
    if n > 0 {
        lemma_pop_disjoint(a, b, (n - 1) as u64);
        lemma_bit_basics(a, b, (n - 1) as u64, (n - 1) as u64);
    }
}

/// A count over a range of clear bits can stop early.
pub proof fn lemma_pop_ext(x: u64, n: u64, m: u64)
    requires
        m <= n <= 64,
        forall|k: u64| m <= k < n ==> !bit(x, k),
    ensures
        pop_below(x, n) == pop_below(x, m),
    decreases n,
{
    if n > m {
        lemma_pop_ext(x, (n - 1) as u64, m);
        assert(!bit(x, (n - 1) as u64));
    }
}

/// The low `m` bits of a word shifted left by `d >= m` are clear.
pub proof fn lemma_pop_zero_low(y: u64, d: u64, m: u64)
    requires
        m <= d < 64,
    ensures
        pop_below(y << d, m) == 0,
    decreases m,
{
    if m > 0 {
        lemma_pop_zero_low(y, d, (m - 1) as u64);
        assert(!bit(y << d, (m - 1) as u64)) by (bit_vector)
            requires
                ((m - 1) as u64) < d && d < 64,
        ;
    }
}

/// Shifting left by `d` moves the count window: the low `n` bits of
/// `y << d` hold as many set bits as the low `n - d` bits of `y`.
pub proof fn lemma_pop_shl(y: u64, d: u64, n: u64)
    requires
        d <= n <= 64,
        d < 64,
    ensures
        pop_below(y << d, n) == pop_below(y, (n - d) as u64),
    decreases n,
{
    if n == d {
        lemma_pop_zero_low(y, d, d);
    } else {
        lemma_pop_shl(y, d, (n - 1) as u64);
        assert(bit(y << d, (n - 1) as u64) == bit(y, (n - 1 - d) as u64)) by (bit_vector)
            requires
                d <= ((n - 1) as u64) && ((n - 1) as u64) < 64 && d < 64,
        ;
    }
}

/// Shifting right by `d` a word whose low `d` bits are clear moves the
/// count window without losing any set bit.
pub proof fn lemma_pop_shr(y: u64, d: u64, n: u64)
    requires
        d <= n <= 64,
        d < 64,
        forall|k: u64| k < d ==> !bit(y, k),
    ensures
        pop_below(y >> d, (n - d) as u64) == pop_below(y, n),
    decreases n,
{
    if n == d {
        lemma_pop_ext(y, d, 0);
    } else {
        lemma_pop_shr(y, d, (n - 1) as u64);
        assert(bit(y >> d, (n - 1 - d) as u64) == bit(y, (n - 1) as u64)) by (bit_vector)
            requires
                d <= ((n - 1) as u64) && ((n - 1) as u64) < 64 && d < 64,
        ;
    }
}

/// A full occupancy word has all 36 cells set and count 36; a word with a
/// free cell has a count below 36.
pub proof fn lemma_popcount_full(x: u64, sq: u64)
    by (bit_vector)
    requires
        sq < 36,
        in_board(x),
    ensures
        x == BOARD_MASK ==> popcount36(x) == 36,
        popcount36(x) == 36 ==> x == BOARD_MASK,
        !bit(x, sq) ==> popcount36(x) < 36,
        popcount36(x) <= 36,
{
}

/// A word counting fewer set bits than bits looked at has a clear bit.
pub proof fn lemma_pop_free(x: u64, n: u64)
    requires
        n <= 64,
        pop_below(x, n) < n,
    ensures
        exists|sq: u64| sq < n && !bit(x, sq),
    decreases n,
{
    if bit(x, (n - 1) as u64) {
        lemma_pop_free(x, (n - 1) as u64);
        let sq = choose|sq: u64| sq < ((n - 1) as u64) && !bit(x, sq);
        assert(sq < n && !bit(x, sq));
    } else {
        assert(((n - 1) as u64) < n && !bit(x, (n - 1) as u64));
    }
}

} // verus!
