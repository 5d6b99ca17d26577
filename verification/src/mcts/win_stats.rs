//! Aggregate win statistics for one search-tree node, counted in half-win
//! units so that a draw can credit each side without fractions.
use vstd::prelude::*;

use crate::fixed::isqrt64;
use crate::fixed::is_sqrt_floor;
use crate::fixed::ln_micro;
use crate::fixed::ln_micro_spec;
use crate::game::outcome::Outcome;
use crate::game::player::Player;

verus! {

/// The most games one node may record: keeps every ranking computation
/// within a word.
pub const GAMES_LIMIT: u64 = 0x2_0000_0000;

/// Win counts in half-win units: a win adds two to the winner, a draw one
/// to each side, so the two counts always sum to twice the games played.
#[derive(Debug, PartialEq, Eq, Structural, Clone, Copy)]
pub struct WinStats {
    pub player1_wins: u64,
    pub player2_wins: u64,
    pub games_played: u64,
}

/// The statistics invariant: half-wins add up, and the count stays small
/// enough for fixed-point ranking arithmetic.
pub open spec fn stats_wf(s: WinStats) -> bool {
    s.player1_wins + s.player2_wins == 2 * s.games_played && s.games_played <= GAMES_LIMIT
}

/// The given player's half-win count.
pub open spec fn wins_of(s: WinStats, p: Player) -> u64 {
    match p {
        Player::Player1 => s.player1_wins,
        Player::Player2 => s.player2_wins,
    }
}

/// The expected win ratio in millionths: half-wins per game, on the scale
/// where a certain win is one million.  An unvisited node counts as even.
pub open spec fn ratio_micro(s: WinStats, p: Player) -> int {
    if s.games_played == 0 {
        500_000
    } else {
        (wins_of(s, p) * 500_000) as int / (s.games_played as int)
    }
}

/// The statistics after recording one more finished game.
pub open spec fn stats_after(s: WinStats, o: Outcome) -> WinStats {
    match o {
        Outcome::Player1Win => WinStats {
            player1_wins: (s.player1_wins + 2) as u64,
            player2_wins: s.player2_wins,
            games_played: (s.games_played + 1) as u64,
        },
        Outcome::Player2Win => WinStats {
            player1_wins: s.player1_wins,
            player2_wins: (s.player2_wins + 2) as u64,
            games_played: (s.games_played + 1) as u64,
        },
        Outcome::Draw => WinStats {
            player1_wins: (s.player1_wins + 1) as u64,
            player2_wins: (s.player2_wins + 1) as u64,
            games_played: (s.games_played + 1) as u64,
        },
    }
}

impl WinStats {
    /// Statistics of a node never visited.
    pub fn new() -> (r: WinStats)
        ensures
            r == (WinStats { player1_wins: 0, player2_wins: 0, games_played: 0 }),
    {
        WinStats { player1_wins: 0, player2_wins: 0, games_played: 0 }
    }

    /// The expected win ratio for `player`, in millionths.  Exactly one
    /// million means every recorded game was a full win for `player`.
    pub fn expected_win_ratio(&self, player: Player) -> (r: u64)
        requires
            stats_wf(*self),
        ensures
            r as int == ratio_micro(*self, player),
            r <= 1_000_000,
    {
        if self.games_played == 0 {
            return 500_000;
        }
        let w = match player {
            Player::Player1 => self.player1_wins,
            Player::Player2 => self.player2_wins,
        };
        proof {
            assert(w * 500_000 <= (2 * GAMES_LIMIT) * 500_000) by (nonlinear_arith)
                requires
                    w <= 2 * GAMES_LIMIT,
            ;
            assert((w * 500_000) as int / (self.games_played as int) <= 1_000_000) by (nonlinear_arith)
                requires
                    w <= 2 * self.games_played && self.games_played >= 1,
            ;
        }
        (w * 500_000) / self.games_played
    }

    /// The upper confidence bound for `player`, in millionths: the win
    /// ratio plus an exploration bonus that grows with the parent's games
    /// and shrinks with this node's own.  An unvisited node ranks above
    /// everything, so every child is tried once.
    pub fn upper_confidence_bound(&self, player: Player, parent_games: u64) -> (r: u64)
        requires
            stats_wf(*self),
            1 <= parent_games <= GAMES_LIMIT,
        ensures
            r as int == ucb_micro(*self, player, parent_games),
            r <= 0x2_0000_0000,
    {
        if self.games_played == 0 {
            return 1_000_000_000;
        }
        let ratio = self.expected_win_ratio(player);
        let ln_parent = ln_micro(parent_games);
        let under = (2 * ln_parent * 1_000_000) / self.games_played;
        let bonus = isqrt64(under);
        proof {
            lemma_sqrt_floor_agrees(under, bonus);
        }
        ratio + bonus
    }

    /// Records one finished game: two half-wins to the winner, or one to
    /// each side for a draw.
    pub fn update_score(&mut self, outcome: Outcome)
        requires
            stats_wf(*old(self)),
            old(self).games_played < GAMES_LIMIT,
        ensures
            *final(self) == stats_after(*old(self), outcome),
            stats_wf(*final(self)),
    {
        match outcome {
            Outcome::Player1Win => {
                self.player1_wins = self.player1_wins + 2;
            },
            Outcome::Player2Win => {
                self.player2_wins = self.player2_wins + 2;
            },
            Outcome::Draw => {
                self.player1_wins = self.player1_wins + 1;
                self.player2_wins = self.player2_wins + 1;
            },
        }
        self.games_played = self.games_played + 1;
    }
}

/// The ranking `upper_confidence_bound` computes, in millionths.
pub open spec fn ucb_micro(s: WinStats, p: Player, parent_games: u64) -> int {
    if s.games_played == 0 {
        1_000_000_000
    } else {
        let under = (2 * ln_micro_spec(parent_games) * 1_000_000) as int / (s.games_played as int);
        ratio_micro(s, p) + sqrt_floor_of(under as u64)
    }
}

/// The value `isqrt64` returns, named through its defining property.
pub open spec fn sqrt_floor_of(x: u64) -> int {
    (choose|r: u64| is_sqrt_floor(x, r)) as int
}

/// A square root of a bounded word is itself small, and any two floors of
/// the same square agree.
pub proof fn lemma_sqrt_floor_agrees(x: u64, r: u64)
    requires
        is_sqrt_floor(x, r),
    ensures
        sqrt_floor_of(x) == r,
        r <= 0xFFFF_FFFF,
{
    let r2 = choose|r2: u64| is_sqrt_floor(x, r2);
    assert(is_sqrt_floor(x, r2));
    assert(r2 == r) by (nonlinear_arith)
        requires
            r * r <= x && x < (r + 1) * (r + 1) && r2 * r2 <= x && x < (r2 + 1) * (r2 + 1),
    ;
    assert(r <= 0xFFFF_FFFF) by (nonlinear_arith)
        requires
            r * r <= x && x <= 0xFFFF_FFFF_FFFF_FFFFu64,
    ;
}

} // verus!
